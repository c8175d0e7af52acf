//! LLDP chassis and port identifiers (IEEE 802.1AB): how they are read off the wire, written back
//! to it, and judged as identifiers at all.

use vstd::prelude::*;
use crate::net::{IpAddress, seg, hi, lo, ip_text};
use crate::text::{
    HexStyle, hex_join, hex_join_chars, hex_octet_spec, is_control, is_control_spec, trim_spec,
    trim_chars, without_nuls, strip_nul_chars, chars_of, string_of, utf8_lossy, decode_utf8_lossy,
    decode_utf8_strict, utf8_bytes, ascii_bytes, parse_hex_group, is_unicode_ws, trim_str, parse_i32,
    std_parse_int, full_style, hex_digit_spec, lemma_hex_join_injective, hex_value,
};
use vstd::utf8::{valid_utf8, decode_utf8, encode_utf8, is_ascii_chars};

verus! {

broadcast use vstd::string::group_string_axioms;

// ---------------------------------------------------------------------------------------------
// The identifiers
// ---------------------------------------------------------------------------------------------

/// LLDP chassis ID subtypes per IEEE 802.1AB: the identity of the remote device.
#[derive(Debug, Clone, PartialEq, Eq, Hash)]
pub enum LldpChassisId {
    /// Subtype 1: chassis component (a backplane serial number, say).
    ChassisComponent(String),
    /// Subtype 2: interface alias (ifAlias).
    InterfaceAlias(String),
    /// Subtype 3: port component.
    PortComponent(String),
    /// Subtype 4: MAC address, in the canonical lower-case colon form.
    MacAddress(String),
    /// Subtype 5: network address.
    NetworkAddress(IpAddress),
    /// Subtype 6: interface name (ifName).
    InterfaceName(String),
    /// Subtype 7: locally assigned.
    LocallyAssigned(String),
}

/// LLDP port ID subtypes per IEEE 802.1AB: the port on the remote device.
#[derive(Debug, Clone, PartialEq, Eq, Hash)]
pub enum LldpPortId {
    /// Subtype 1: interface alias (ifAlias).
    InterfaceAlias(String),
    /// Subtype 2: port component.
    PortComponent(String),
    /// Subtype 3: MAC address, in the canonical lower-case colon form.
    MacAddress(String),
    /// Subtype 4: network address.
    NetworkAddress(IpAddress),
    /// Subtype 5: interface name (ifName).
    InterfaceName(String),
    /// Subtype 6: agent circuit id.
    AgentCircuitId(String),
    /// Subtype 7: locally assigned.
    LocallyAssigned(String),
}

/// A chassis id as a value.
pub enum ChassisView {
    ChassisComponent(Seq<char>),
    InterfaceAlias(Seq<char>),
    PortComponent(Seq<char>),
    MacAddress(Seq<char>),
    NetworkAddress(IpAddress),
    InterfaceName(Seq<char>),
    LocallyAssigned(Seq<char>),
}

/// A port id as a value.
pub enum PortView {
    InterfaceAlias(Seq<char>),
    PortComponent(Seq<char>),
    MacAddress(Seq<char>),
    NetworkAddress(IpAddress),
    InterfaceName(Seq<char>),
    AgentCircuitId(Seq<char>),
    LocallyAssigned(Seq<char>),
}

impl View for LldpChassisId {
    type V = ChassisView;

    open spec fn view(&self) -> ChassisView {
        match self {
            LldpChassisId::ChassisComponent(s) => ChassisView::ChassisComponent(s@),
            LldpChassisId::InterfaceAlias(s) => ChassisView::InterfaceAlias(s@),
            LldpChassisId::PortComponent(s) => ChassisView::PortComponent(s@),
            LldpChassisId::MacAddress(s) => ChassisView::MacAddress(s@),
            LldpChassisId::NetworkAddress(a) => ChassisView::NetworkAddress(*a),
            LldpChassisId::InterfaceName(s) => ChassisView::InterfaceName(s@),
            LldpChassisId::LocallyAssigned(s) => ChassisView::LocallyAssigned(s@),
        }
    }
}

impl View for LldpPortId {
    type V = PortView;

    open spec fn view(&self) -> PortView {
        match self {
            LldpPortId::InterfaceAlias(s) => PortView::InterfaceAlias(s@),
            LldpPortId::PortComponent(s) => PortView::PortComponent(s@),
            LldpPortId::MacAddress(s) => PortView::MacAddress(s@),
            LldpPortId::NetworkAddress(a) => PortView::NetworkAddress(*a),
            LldpPortId::InterfaceName(s) => PortView::InterfaceName(s@),
            LldpPortId::AgentCircuitId(s) => PortView::AgentCircuitId(s@),
            LldpPortId::LocallyAssigned(s) => PortView::LocallyAssigned(s@),
        }
    }
}

/// An optional string as an optional value.
pub open spec fn opt_text(o: Option<String>) -> Option<Seq<char>> {
    match o {
        Some(s) => Some(s@),
        None => None,
    }
}

// ---------------------------------------------------------------------------------------------
// Judging an identifier
// ---------------------------------------------------------------------------------------------

/// U+FFFD: "a decode already lost bytes here".
pub open spec fn is_replacement(c: char) -> bool {
    c == '\u{FFFD}'
}

/// Whether a decoded string is usable as an identifier: it holds no control character and no
/// replacement character. The empty string is usable.
pub open spec fn usable_spec(s: Seq<char>) -> bool {
    forall|i: int| 0 <= i < s.len() ==> !is_control_spec(#[trigger] s[i]) && !is_replacement(s[i])
}

/// A port identifier's storable form: NULs removed, then surrounding whitespace trimmed, and
/// refused when what is left holds a control or replacement character.
pub open spec fn accept_spec(s: Seq<char>) -> Option<Seq<char>> {
    let normalised = trim_spec(without_nuls(s));
    if usable_spec(normalised) {
        Some(normalised)
    } else {
        None
    }
}

fn usable_chars(v: &[char]) -> (r: bool)
    ensures
        r == usable_spec(v@),
{
    let mut i: usize = 0;
    while i < v.len()
        invariant
            i <= v@.len(),
            forall|j: int| 0 <= j < i ==> !is_control_spec(#[trigger] v@[j]) && !is_replacement(v@[j]),
        decreases v.len() - i,
    {
        if is_control(v[i]) || v[i] == '\u{FFFD}' {
            return false;
        }
        i = i + 1;
    }
    true
}

/// Whether a decoded LLDP identifier string is usable as an identifier at all: no control
/// character (Unicode `Cc`) and no U+FFFD.
pub fn usable_identifier(value: &str) -> (r: bool)
    ensures
        r == usable_spec(value@),
{
    let v = chars_of(value);
    usable_chars(v.as_slice())
}

/// Judge an already-decoded port identifier: the storable form, or `None` when it is no
/// identifier. NULs and surrounding whitespace are padding and are removed before judging, so
/// one identifier gets one answer however it was polled. `source` names the transport.
pub fn accept_port_identifier(source: &str, value: &str) -> (r: Option<String>)
    ensures
        opt_text(r) == accept_spec(value@),
{
    let v = chars_of(value);
    let stripped = strip_nul_chars(v.as_slice());
    let normalised = trim_chars(stripped.as_slice(), true);
    if usable_chars(normalised.as_slice()) {
        Some(string_of(normalised.as_slice()))
    } else {
        None
    }
}

/// One identifier gets one answer: what is accepted (whichever transport read it, since the
/// judgement does not depend on the source) holds no NUL and no surrounding padding, and
/// accepting it again gives it back unchanged.
pub proof fn lemma_accepting_twice_changes_nothing(s: Seq<char>)
    ensures
        accept_spec(s) matches Some(n) ==> !n.contains('\0') && trim_spec(n) == n && accept_spec(n)
            == Some(n),
{
    if let Some(n) = accept_spec(s) {
        let w = without_nuls(s);
        crate::text::lemma_without_nuls_has_none(s);
        assert(!w.contains('\0')) by {
            if w.contains('\0') {
                let k = choose|k: int| 0 <= k < w.len() && w[k] == '\0';
                assert(w[k] != '\0');
            }
        }
        crate::text::lemma_trimmed_lacks(w, true, '\0');
        crate::text::lemma_trimmed_idempotent(w, true);
        assert forall|i: int| 0 <= i < n.len() implies #[trigger] n[i] != '\0' by {
            if n[i] == '\0' {
                assert(n.contains('\0'));
            }
        }
        crate::text::lemma_without_nuls_identity(n);
    }
}

/// What a refused port identifier leaves for an operator to act on: the transport that served it,
/// its bytes as space-separated lower-case hex (what a packet capture shows), and, where the bytes
/// were text, that text escaped, so that a control character shows as its escape rather than as
/// itself.
#[derive(Debug, Clone, PartialEq, Eq)]
pub struct PortIdRefusal {
    pub source: String,
    pub bytes: String,
    pub escaped: Option<String>,
}

/// A refusal as plain values: source, hex bytes, escaped text.
pub open spec fn refusal_view(r: Option<PortIdRefusal>) -> Option<(Seq<char>, Seq<char>, Option<Seq<char>>)> {
    match r {
        Some(f) => Some((f.source@, f.bytes@, opt_text(f.escaped))),
        None => None,
    }
}

/// What `str::escape_debug` writes for a text: every character escaped as `char::escape_debug`
/// escapes it, grapheme extenders only at the start.
pub uninterp spec fn debug_escaped(s: Seq<char>) -> Seq<char>;

/// `str::escape_debug`, collected into a `String`; its text is named by [`debug_escaped`].
#[verifier::external_body]
fn escape_debug_text(s: &str) -> (r: String)
    ensures
        r@ == debug_escaped(s@),
{
    s.escape_debug().to_string()
}

/// The refusal a port payload `bytes` served by `source` earns: bytes that are not UTF-8 are
/// named by their hex alone; text that is no identifier by its hex and its escaped text; an
/// accepted identifier earns none.
pub open spec fn refusal_spec(source: Seq<char>, bytes: Seq<u8>) -> Option<(Seq<char>, Seq<char>, Option<Seq<char>>)> {
    if !valid_utf8(bytes) {
        Some((source, hex_join(bytes, ' ', HexStyle::Lower), None))
    } else if accept_spec(decode_utf8(bytes)) is Some {
        None
    } else {
        Some((source, hex_join(bytes, ' ', HexStyle::Lower), Some(debug_escaped(decode_utf8(bytes)))))
    }
}

/// The refusal [`accept_port_identifier`] makes of `value`, served by `source`: `None` exactly
/// when it accepts the value, and otherwise the source, the value's UTF-8 bytes in hex and its
/// escaped text, for the operator's log.
pub fn port_identifier_refusal(source: &str, value: &str) -> (r: Option<PortIdRefusal>)
    ensures
        refusal_view(r) == refusal_spec(source@, encode_utf8(value@)),
        r is None <==> accept_spec(value@) is Some,
{
    proof {
        vstd::utf8::encode_utf8_valid_utf8(value@);
        vstd::utf8::encode_utf8_decode_utf8(value@);
    }
    match accept_port_identifier(source, value) {
        Some(_) => None,
        None => {
            let b = utf8_bytes(value);
            Some(PortIdRefusal {
                source: source.to_owned(),
                bytes: hex_payload(b.as_slice()),
                escaped: Some(escape_debug_text(value)),
            })
        },
    }
}

/// The refusal [`decode_tlv_name`] makes of an SNMP port payload: `None` exactly when it yields a
/// port name; bytes that are not UTF-8 are named by their hex alone.
pub fn tlv_name_refusal(value: &[u8]) -> (r: Option<PortIdRefusal>)
    ensures
        refusal_view(r) == refusal_spec("snmp"@, value@),
        r is None <==> tlv_name_spec(value@) is Some,
{
    match decode_utf8_strict(value) {
        Some(text) => {
            proof {
                vstd::utf8::decode_utf8_encode_utf8(value@);
            }
            port_identifier_refusal("snmp", text.as_str())
        },
        None => Some(PortIdRefusal {
            source: "snmp".to_owned(),
            bytes: hex_payload(value),
            escaped: None,
        }),
    }
}

/// A port payload is refused exactly when it yields no port name, and every refusal names the
/// transport that served the payload and its bytes.
pub proof fn lemma_refused_exactly_when_no_name(source: Seq<char>, bytes: Seq<u8>)
    ensures
        (refusal_spec(source, bytes) is None) == (tlv_name_spec(bytes) is Some),
        refusal_spec(source, bytes) matches Some(f) ==> f.0 == source && f.1 == hex_join(
            bytes,
            ' ',
            HexStyle::Lower,
        ),
{
}

/// A payload as space-separated lower-case hex, the way an operator reads a packet capture.
pub fn hex_payload(value: &[u8]) -> (r: String)
    ensures
        r@ == hex_join(value@, ' ', HexStyle::Lower),
{
    let v = hex_join_chars(value, ' ', HexStyle::Lower);
    string_of(v.as_slice())
}

// ---------------------------------------------------------------------------------------------
// Decoding TLV payloads
// ---------------------------------------------------------------------------------------------

/// A textual port TLV payload: strictly UTF-8, then judged as an identifier.
pub open spec fn tlv_name_spec(value: Seq<u8>) -> Option<Seq<char>> {
    if valid_utf8(value) {
        accept_spec(decode_utf8(value))
    } else {
        None
    }
}

/// A textual chassis TLV payload: decoded lossily, NULs removed.
pub open spec fn tlv_text_spec(value: Seq<u8>) -> Seq<char> {
    without_nuls(crate::text::lossy_text(value))
}

/// Decode a textual LLDP port TLV payload, or reject it: bytes that are not UTF-8, or text that
/// is no identifier, are no port name.
pub fn decode_tlv_name(value: &[u8]) -> (r: Option<String>)
    ensures
        opt_text(r) == tlv_name_spec(value@),
{
    match decode_utf8_strict(value) {
        Some(text) => accept_port_identifier("snmp", text.as_str()),
        None => None,
    }
}

/// Decode a textual LLDP chassis TLV payload: lossily, NULs removed.
pub fn decode_tlv_text(value: &[u8]) -> (r: String)
    ensures
        r@ == tlv_text_spec(value@),
{
    let text = decode_utf8_lossy(value);
    let v = chars_of(text.as_str());
    let stripped = strip_nul_chars(v.as_slice());
    string_of(stripped.as_slice())
}

// ---------------------------------------------------------------------------------------------
// MAC addresses
// ---------------------------------------------------------------------------------------------

/// The value of a run of hexadecimal digits, most significant first; nothing when one of them
/// is not a hexadecimal digit.
pub open spec fn hex_number(d: Seq<char>) -> Option<nat>
    decreases d.len(),
{
    if d.len() == 0 {
        Some(0)
    } else {
        match (hex_number(d.drop_last()), hex_value(d.last())) {
            (Some(n), Some(v)) => Some(n * 16 + v as nat),
            _ => None,
        }
    }
}

/// `u8::from_str_radix(g, 16)`: an optional leading `+`, then at least one hexadecimal digit,
/// the value at most 255.
pub open spec fn radix16_u8(g: Seq<char>) -> Option<u8> {
    let digits = if g.len() > 0 && g[0] == '+' {
        g.drop_first()
    } else {
        g
    };
    if digits.len() == 0 {
        None
    } else {
        match hex_number(digits) {
            Some(n) => if n <= 255 {
                Some(n as u8)
            } else {
                None
            },
            None => None,
        }
    }
}

/// A MAC separator: a colon or a hyphen.
pub open spec fn is_mac_sep(c: char) -> bool {
    c == ':' || c == '-'
}

/// `s` split on colons and hyphens, as `str::split` does: an empty string is one empty group.
pub open spec fn split_mac(s: Seq<char>) -> Seq<Seq<char>>
    decreases s.len(),
{
    if s.len() == 0 {
        seq![Seq::empty()]
    } else {
        let p = split_mac(s.drop_last());
        if is_mac_sep(s.last()) {
            p.push(Seq::empty())
        } else {
            p.update(p.len() - 1, p.last().push(s.last()))
        }
    }
}

/// What `mac_address::MacAddress::from_str` yields for a text, as octets. Text that is not
/// ASCII fails. Seventeen characters are split on colons and hyphens, and the first six groups
/// (as many as there are) each read by `u8::from_str_radix(_, 16)`, octets no group reaches
/// staying zero. Twelve characters are read as six two-character groups the same way. Any other
/// length fails.
pub open spec fn mac_text_value(s: Seq<char>) -> Option<Seq<u8>> {
    if !is_ascii_chars(s) {
        None
    } else if s.len() == 17 {
        let gs = split_mac(s);
        if forall|i: int| 0 <= i < 6 && i < gs.len() ==> radix16_u8(#[trigger] gs[i]) is Some {
            Some(
                Seq::new(
                    6,
                    |i: int|
                        if i < gs.len() {
                            radix16_u8(gs[i])->0
                        } else {
                            0u8
                        },
                ),
            )
        } else {
            None
        }
    } else if s.len() == 12 {
        if forall|i: int| 0 <= i < 6 ==> radix16_u8(#[trigger] s.subrange(2 * i, 2 * i + 2)) is Some {
            Some(Seq::new(6, |i: int| radix16_u8(s.subrange(2 * i, 2 * i + 2))->0))
        } else {
            None
        }
    } else {
        None
    }
}

/// `mac_address::MacAddress::from_str`, then `MacAddress::bytes`: the octets
/// [`mac_text_value`] states, and nothing where it states none.
#[verifier::external_body]
pub(crate) fn mac_from_text(s: &str) -> (r: Option<[u8; 6]>)
    ensures
        match r {
            Some(b) => mac_text_value(s@) == Some(b@),
            None => mac_text_value(s@) is None,
        },
{
    s.parse::<mac_address::MacAddress>().ok().map(|m| m.bytes())
}

/// `s` split on `sep`, as `str::split` does: an empty string is one empty group.
pub open spec fn split_on(s: Seq<char>, sep: char) -> Seq<Seq<char>>
    decreases s.len(),
{
    if s.len() == 0 {
        seq![Seq::empty()]
    } else {
        let p = split_on(s.drop_last(), sep);
        if s.last() == sep {
            p.push(Seq::empty())
        } else {
            p.update(p.len() - 1, p.last().push(s.last()))
        }
    }
}

/// Splitting always yields at least one group.
pub proof fn lemma_split_nonempty(s: Seq<char>, sep: char)
    ensures
        split_on(s, sep).len() >= 1,
    decreases s.len(),
{
    if s.len() > 0 {
        lemma_split_nonempty(s.drop_last(), sep);
    }
}

/// Six colon-separated groups of one or two hex digits: a MAC with its octets not zero-padded.
pub open spec fn group_ok(g: Seq<char>) -> bool {
    1 <= g.len() <= 2 && hex_octet_spec(g) is Some
}

pub open spec fn abbreviated_octets(t: Seq<char>) -> Option<Seq<u8>> {
    let groups = split_on(t, ':');
    if groups.len() == 6 && (forall|i: int| 0 <= i < 6 ==> group_ok(#[trigger] groups[i])) {
        Some(Seq::new(6, |i: int| hex_octet_spec(groups[i])->0))
    } else {
        None
    }
}

/// The canonical lower-case colon form of a MAC rendered as text, or `None` when the text is not
/// a MAC.
pub open spec fn canonical_mac_spec(s: Seq<char>) -> Option<Seq<char>> {
    let t = trim_spec(s);
    match mac_text_value(t) {
        Some(b) => Some(hex_join(b, ':', HexStyle::Lower)),
        None => match abbreviated_octets(t) {
            Some(b) => Some(hex_join(b, ':', HexStyle::Lower)),
            None => None,
        },
    }
}

/// A MAC-address identifier (chassis subtype 4, port subtype 3): six raw octets, or the address
/// as text.
pub open spec fn mac_id_spec(value: Seq<u8>) -> Option<Seq<char>> {
    if value.len() == 6 {
        Some(hex_join(value, ':', HexStyle::Lower))
    } else if valid_utf8(value) {
        canonical_mac_spec(decode_utf8(value))
    } else {
        None
    }
}

/// Format MAC address bytes as a lower-case colon-separated string.
pub fn format_mac(bytes: &[u8]) -> (r: String)
    ensures
        r@ == hex_join(bytes@, ':', HexStyle::Lower),
{
    let v = hex_join_chars(bytes, ':', HexStyle::Lower);
    string_of(v.as_slice())
}

/// Split a character slice on `sep`.
fn split_chars(v: &[char], sep: char) -> (r: Vec<Vec<char>>)
    ensures
        r@.len() == split_on(v@, sep).len(),
        forall|i: int| 0 <= i < r@.len() ==> (#[trigger] r@[i])@ == split_on(v@, sep)[i],
{
    let mut done: Vec<Vec<char>> = Vec::new();
    let mut cur: Vec<char> = Vec::new();
    let mut i: usize = 0;
    assert(v@.subrange(0, 0) =~= Seq::<char>::empty());
    while i < v.len()
        invariant
            i <= v@.len(),
            done@.len() + 1 == split_on(v@.subrange(0, i as int), sep).len(),
            forall|k: int|
                0 <= k < done@.len() ==> (#[trigger] done@[k])@ == split_on(
                    v@.subrange(0, i as int),
                    sep,
                )[k],
            cur@ == split_on(v@.subrange(0, i as int), sep).last(),
        decreases v.len() - i,
    {
        proof {
            lemma_split_nonempty(v@.subrange(0, i as int), sep);
        }
        assert(v@.subrange(0, i + 1).drop_last() =~= v@.subrange(0, i as int));
        assert(v@.subrange(0, i + 1).last() == v@[i as int]);
        if v[i] == sep {
            done.push(cur);
            cur = Vec::new();
        } else {
            cur.push(v[i]);
        }
        i = i + 1;
    }
    proof {
        lemma_split_nonempty(v@, sep);
    }
    assert(v@.subrange(0, v@.len() as int) =~= v@);
    done.push(cur);
    done
}

/// The octets of six colon-separated one- or two-digit groups.
fn abbreviated_mac(t: &[char]) -> (r: Option<Vec<u8>>)
    ensures
        match r {
            Some(b) => abbreviated_octets(t@) == Some(b@),
            None => abbreviated_octets(t@) is None,
        },
{
    let groups = split_chars(t, ':');
    let ghost sg = split_on(t@, ':');
    if groups.len() != 6 {
        return None;
    }
    let mut out: Vec<u8> = Vec::new();
    let mut i: usize = 0;
    while i < 6
        invariant
            groups@.len() == 6,
            sg.len() == 6,
            sg == split_on(t@, ':'),
            forall|k: int| 0 <= k < 6 ==> (#[trigger] groups@[k])@ == sg[k],
            i <= 6,
            out@.len() == i,
            forall|k: int| 0 <= k < i ==> group_ok(#[trigger] sg[k]),
            forall|k: int| 0 <= k < i ==> out@[k] == hex_octet_spec(#[trigger] sg[k])->0,
        decreases 6 - i,
    {
        let g = &groups[i];
        assert(g@ == sg[i as int]);
        if g.len() < 1 || g.len() > 2 {
            return None;
        }
        match parse_hex_group(g.as_slice()) {
            Some(b) => out.push(b),
            None => return None,
        }
        i = i + 1;
    }
    assert(out@ =~= Seq::new(6, |k: int| hex_octet_spec(sg[k])->0));
    Some(out)
}

/// Canonicalize a MAC rendered as text into the lower-case colon-separated form
/// [`format_mac`] produces, or `None` when the value is not a MAC. Surrounding whitespace is
/// ignored, and octets need not be zero-padded.
pub fn canonical_mac(value: &str) -> (r: Option<String>)
    ensures
        opt_text(r) == canonical_mac_spec(value@),
{
    let v = chars_of(value);
    let t = trim_chars(v.as_slice(), true);
    let text = string_of(t.as_slice());
    match mac_from_text(text.as_str()) {
        Some(b) => Some(format_mac(b.as_slice())),
        None => match abbreviated_mac(t.as_slice()) {
            Some(octets) => Some(format_mac(octets.as_slice())),
            None => None,
        },
    }
}

/// Parse an LLDP MAC-address identifier: six raw octets, or the address sent as text (with or
/// without zero-padded octets), normalised to the canonical lower-case colon form.
pub fn parse_mac_id(value: &[u8]) -> (r: Option<String>)
    ensures
        opt_text(r) == mac_id_spec(value@),
{
    if value.len() == 6 {
        return Some(format_mac(value));
    }
    match decode_utf8_strict(value) {
        Some(text) => canonical_mac(text.as_str()),
        None => None,
    }
}

// ---------------------------------------------------------------------------------------------
// Network addresses
// ---------------------------------------------------------------------------------------------

/// The LLDP network-address format: IANA address family (1 for IPv4, 2 for IPv6), then the
/// address octets.
pub open spec fn network_address_spec(v: Seq<u8>) -> Option<IpAddress> {
    if v.len() == 5 && v[0] == 1 {
        Some(IpAddress::V4(v[1], v[2], v[3], v[4]))
    } else if v.len() == 17 && v[0] == 2 {
        Some(
            IpAddress::V6(
                seg(v[1], v[2]),
                seg(v[3], v[4]),
                seg(v[5], v[6]),
                seg(v[7], v[8]),
                seg(v[9], v[10]),
                seg(v[11], v[12]),
                seg(v[13], v[14]),
                seg(v[15], v[16]),
            ),
        )
    } else {
        None
    }
}

/// How an address is written in that format.
pub open spec fn network_address_bytes(a: IpAddress) -> Seq<u8> {
    match a {
        IpAddress::V4(..) => seq![1u8] + a.octets(),
        IpAddress::V6(..) => seq![2u8] + a.octets(),
    }
}

fn segment_of(h: u8, l: u8) -> (r: u16)
    ensures
        r == seg(h, l),
{
    (h as u16) * 256 + (l as u16)
}

/// Parse an LLDP network address (family byte, then the octets).
pub fn parse_network_address(value: &[u8]) -> (r: Option<IpAddress>)
    ensures
        r == network_address_spec(value@),
{
    if value.len() == 5 && value[0] == 1 {
        Some(IpAddress::V4(value[1], value[2], value[3], value[4]))
    } else if value.len() == 17 && value[0] == 2 {
        Some(
            IpAddress::V6(
                segment_of(value[1], value[2]),
                segment_of(value[3], value[4]),
                segment_of(value[5], value[6]),
                segment_of(value[7], value[8]),
                segment_of(value[9], value[10]),
                segment_of(value[11], value[12]),
                segment_of(value[13], value[14]),
                segment_of(value[15], value[16]),
            ),
        )
    } else {
        None
    }
}

fn push_segment(out: &mut Vec<u8>, s: u16)
    ensures
        final(out)@ == old(out)@ + seq![hi(s), lo(s)],
{
    out.push((s / 256) as u8);
    out.push((s % 256) as u8);
    assert(final(out)@ =~= old(out)@ + seq![hi(s), lo(s)]);
}

/// Render an address the way [`parse_network_address`] reads one.
pub fn encode_network_address(addr: &IpAddress) -> (r: Vec<u8>)
    ensures
        r@ == network_address_bytes(*addr),
{
    let mut out: Vec<u8> = Vec::new();
    match addr {
        IpAddress::V4(a, b, c, d) => {
            out.push(1);
            out.push(*a);
            out.push(*b);
            out.push(*c);
            out.push(*d);
        },
        IpAddress::V6(s0, s1, s2, s3, s4, s5, s6, s7) => {
            out.push(2);
            push_segment(&mut out, *s0);
            push_segment(&mut out, *s1);
            push_segment(&mut out, *s2);
            push_segment(&mut out, *s3);
            push_segment(&mut out, *s4);
            push_segment(&mut out, *s5);
            push_segment(&mut out, *s6);
            push_segment(&mut out, *s7);
        },
    }
    assert(out@ =~= network_address_bytes(*addr));
    out
}

// ---------------------------------------------------------------------------------------------
// MAC encodings on the wire
// ---------------------------------------------------------------------------------------------

/// The forms a MAC-valued LLDP identifier takes on the wire.
#[derive(Debug, Clone, Copy, PartialEq, Eq, Structural)]
pub enum MacEncoding {
    /// Six raw octets — what a conforming agent sends.
    Octets,
    /// `00:1a:2b:00:10:01` — zero-padded ASCII.
    AsciiLower,
    /// `00:1A:2B:00:10:00` — zero-padded ASCII, upper case.
    AsciiUpper,
    /// `0:1a:2b:0:10:0` — ASCII with unpadded octets.
    AsciiAbbreviated,
}

impl Default for MacEncoding {
    fn default() -> (r: Self)
        ensures
            r == MacEncoding::Octets,
    {
        MacEncoding::Octets
    }
}

/// The bytes an encoding puts on the wire for a MAC with the given octets.
pub open spec fn mac_encoded(enc: MacEncoding, mac: Seq<u8>) -> Seq<u8> {
    match enc {
        MacEncoding::Octets => mac,
        MacEncoding::AsciiLower => encode_utf8(hex_join(mac, ':', HexStyle::Lower)),
        MacEncoding::AsciiUpper => encode_utf8(hex_join(mac, ':', HexStyle::Upper)),
        MacEncoding::AsciiAbbreviated => encode_utf8(hex_join(mac, ':', HexStyle::Short)),
    }
}

/// The bytes an identifier holding `value` is written as: a MAC in the encoding, anything else
/// verbatim.
pub open spec fn mac_identifier_encoded(enc: MacEncoding, value: Seq<char>) -> Seq<u8> {
    match mac_text_value(value) {
        Some(b) => mac_encoded(enc, b),
        None => encode_utf8(value),
    }
}

impl MacEncoding {
    /// Render a MAC, given by its six octets, as this encoding puts it on the wire.
    pub fn encode(self, mac: [u8; 6]) -> (r: Vec<u8>)
        ensures
            r@ == mac_encoded(self, mac@),
    {
        let bytes = vstd::slice::slice_to_vec(mac.as_slice());
        match self {
            MacEncoding::Octets => bytes,
            MacEncoding::AsciiLower => {
                let t = hex_join_chars(bytes.as_slice(), ':', HexStyle::Lower);
                proof {
                    lemma_hex_join_ascii(bytes@, ':', HexStyle::Lower);
                }
                ascii_bytes(t.as_slice())
            },
            MacEncoding::AsciiUpper => {
                let t = hex_join_chars(bytes.as_slice(), ':', HexStyle::Upper);
                proof {
                    lemma_hex_join_ascii(bytes@, ':', HexStyle::Upper);
                }
                ascii_bytes(t.as_slice())
            },
            MacEncoding::AsciiAbbreviated => {
                let t = hex_join_chars(bytes.as_slice(), ':', HexStyle::Short);
                proof {
                    lemma_hex_join_ascii(bytes@, ':', HexStyle::Short);
                }
                ascii_bytes(t.as_slice())
            },
        }
    }

    /// Render an identifier holding a canonical MAC back into wire bytes; a value that is not a
    /// MAC is emitted as its own bytes.
    fn encode_identifier(self, value: &str) -> (r: Vec<u8>)
        ensures
            r@ == mac_identifier_encoded(self, value@),
    {
        match mac_from_text(value) {
            Some(mac) => self.encode(mac),
            None => utf8_bytes(value),
        }
    }
}

proof fn lemma_octet_text_ascii(b: u8, style: HexStyle)
    ensures
        is_ascii_chars(crate::text::octet_text(b, style)),
{
    assert(b / 16 < 16 && b % 16 < 16);
}

/// Octets written in hexadecimal, joined by an ASCII separator, are ASCII.
pub proof fn lemma_hex_join_ascii(bytes: Seq<u8>, sep: char, style: HexStyle)
    requires
        '\0' <= sep <= '\u{7f}',
    ensures
        is_ascii_chars(hex_join(bytes, sep, style)),
    decreases bytes.len(),
{
    if bytes.len() == 1 {
        lemma_octet_text_ascii(bytes[0], style);
    } else if bytes.len() > 1 {
        lemma_hex_join_ascii(bytes.drop_last(), sep, style);
        lemma_octet_text_ascii(bytes.last(), style);
        let a = hex_join(bytes.drop_last(), sep, style).push(sep);
        let b = crate::text::octet_text(bytes.last(), style);
        assert forall|i: int| 0 <= i < (a + b).len() implies '\0' <= #[trigger] (a + b)[i] <= '\u{7f}' by {
            if i < a.len() {
                assert((a + b)[i] == a[i]);
            } else {
                assert((a + b)[i] == b[i - a.len()]);
            }
        }
    }
}

// ---------------------------------------------------------------------------------------------
// From and to the wire
// ---------------------------------------------------------------------------------------------

/// A chassis id read from SNMP raw values: the subtype byte, then the value bytes.
pub open spec fn chassis_from_snmp_spec(subtype: u8, value: Seq<u8>) -> Option<ChassisView> {
    if subtype == 1 {
        Some(ChassisView::ChassisComponent(tlv_text_spec(value)))
    } else if subtype == 2 {
        Some(ChassisView::InterfaceAlias(tlv_text_spec(value)))
    } else if subtype == 3 {
        Some(ChassisView::PortComponent(tlv_text_spec(value)))
    } else if subtype == 4 {
        match mac_id_spec(value) {
            Some(m) => Some(ChassisView::MacAddress(m)),
            None => None,
        }
    } else if subtype == 5 {
        match network_address_spec(value) {
            Some(a) => Some(ChassisView::NetworkAddress(a)),
            None => None,
        }
    } else if subtype == 6 {
        Some(ChassisView::InterfaceName(tlv_text_spec(value)))
    } else if subtype == 7 {
        Some(ChassisView::LocallyAssigned(tlv_text_spec(value)))
    } else {
        None
    }
}

/// A port id read from SNMP raw values: the subtype byte, then the value bytes. A textual
/// subtype whose payload is no identifier yields nothing.
pub open spec fn port_from_snmp_spec(subtype: u8, value: Seq<u8>) -> Option<PortView> {
    if subtype == 3 {
        match mac_id_spec(value) {
            Some(m) => Some(PortView::MacAddress(m)),
            None => None,
        }
    } else if subtype == 4 {
        match network_address_spec(value) {
            Some(a) => Some(PortView::NetworkAddress(a)),
            None => None,
        }
    } else if 1 <= subtype <= 7 {
        match tlv_name_spec(value) {
            Some(t) => Some(
                if subtype == 1 {
                    PortView::InterfaceAlias(t)
                } else if subtype == 2 {
                    PortView::PortComponent(t)
                } else if subtype == 5 {
                    PortView::InterfaceName(t)
                } else if subtype == 6 {
                    PortView::AgentCircuitId(t)
                } else {
                    PortView::LocallyAssigned(t)
                },
            ),
            None => None,
        }
    } else {
        None
    }
}

/// The subtype and value bytes an agent advertising a chassis id sends.
pub open spec fn chassis_to_snmp_spec(id: ChassisView, enc: MacEncoding) -> (u8, Seq<u8>) {
    match id {
        ChassisView::ChassisComponent(s) => (1, encode_utf8(s)),
        ChassisView::InterfaceAlias(s) => (2, encode_utf8(s)),
        ChassisView::PortComponent(s) => (3, encode_utf8(s)),
        ChassisView::MacAddress(s) => (4, mac_identifier_encoded(enc, s)),
        ChassisView::NetworkAddress(a) => (5, network_address_bytes(a)),
        ChassisView::InterfaceName(s) => (6, encode_utf8(s)),
        ChassisView::LocallyAssigned(s) => (7, encode_utf8(s)),
    }
}

/// The subtype and value bytes an agent advertising a port id sends.
pub open spec fn port_to_snmp_spec(id: PortView, enc: MacEncoding) -> (u8, Seq<u8>) {
    match id {
        PortView::InterfaceAlias(s) => (1, encode_utf8(s)),
        PortView::PortComponent(s) => (2, encode_utf8(s)),
        PortView::MacAddress(s) => (3, mac_identifier_encoded(enc, s)),
        PortView::NetworkAddress(a) => (4, network_address_bytes(a)),
        PortView::InterfaceName(s) => (5, encode_utf8(s)),
        PortView::AgentCircuitId(s) => (6, encode_utf8(s)),
        PortView::LocallyAssigned(s) => (7, encode_utf8(s)),
    }
}

pub open spec fn chassis_opt(r: Option<LldpChassisId>) -> Option<ChassisView> {
    match r {
        Some(id) => Some(id@),
        None => None,
    }
}

pub open spec fn port_opt(r: Option<LldpPortId>) -> Option<PortView> {
    match r {
        Some(id) => Some(id@),
        None => None,
    }
}

/// A chassis id built from an identifier string with no subtype byte: a MAC-shaped value in
/// canonical form, anything else locally assigned.
pub open spec fn chassis_from_identifier_spec(value: Seq<char>) -> ChassisView {
    match canonical_mac_spec(value) {
        Some(m) => ChassisView::MacAddress(m),
        None => ChassisView::LocallyAssigned(value),
    }
}

pub open spec fn port_from_identifier_spec(value: Seq<char>) -> PortView {
    match canonical_mac_spec(value) {
        Some(m) => PortView::MacAddress(m),
        None => PortView::LocallyAssigned(value),
    }
}

impl LldpChassisId {
    /// Parse from SNMP raw values (subtype byte + value bytes). Textual subtypes decode lossily
    /// with NULs removed; a chassis id has no next tier to fall to, so it is not refused.
    pub fn from_snmp(subtype: u8, value: &[u8]) -> (r: Option<Self>)
        ensures
            chassis_opt(r) == chassis_from_snmp_spec(subtype, value@),
    {
        match subtype {
            1 => Some(LldpChassisId::ChassisComponent(decode_tlv_text(value))),
            2 => Some(LldpChassisId::InterfaceAlias(decode_tlv_text(value))),
            3 => Some(LldpChassisId::PortComponent(decode_tlv_text(value))),
            4 => match parse_mac_id(value) {
                Some(m) => Some(LldpChassisId::MacAddress(m)),
                None => None,
            },
            5 => match parse_network_address(value) {
                Some(a) => Some(LldpChassisId::NetworkAddress(a)),
                None => None,
            },
            6 => Some(LldpChassisId::InterfaceName(decode_tlv_text(value))),
            7 => Some(LldpChassisId::LocallyAssigned(decode_tlv_text(value))),
            _ => None,
        }
    }

    /// Build a chassis ID from an identifier string, for sources that report LLDP neighbour data
    /// without the subtype byte: a MAC-shaped value canonicalised, anything else locally assigned.
    pub fn from_identifier_str(value: &str) -> (r: Self)
        ensures
            r@ == chassis_from_identifier_spec(value@),
    {
        match canonical_mac(value) {
            Some(mac) => LldpChassisId::MacAddress(mac),
            None => LldpChassisId::LocallyAssigned(string_of(chars_of(value).as_slice())),
        }
    }

    /// The subtype and value bytes an agent advertising this identifier would send.
    /// `mac_encoding` is consulted only by [`Self::MacAddress`].
    pub fn to_snmp(&self, mac_encoding: MacEncoding) -> (r: (u8, Vec<u8>))
        ensures
            (r.0, r.1@) == chassis_to_snmp_spec(self@, mac_encoding),
    {
        match self {
            LldpChassisId::ChassisComponent(s) => (1, utf8_bytes(s.as_str())),
            LldpChassisId::InterfaceAlias(s) => (2, utf8_bytes(s.as_str())),
            LldpChassisId::PortComponent(s) => (3, utf8_bytes(s.as_str())),
            LldpChassisId::MacAddress(s) => (4, mac_encoding.encode_identifier(s.as_str())),
            LldpChassisId::NetworkAddress(a) => (5, encode_network_address(a)),
            LldpChassisId::InterfaceName(s) => (6, utf8_bytes(s.as_str())),
            LldpChassisId::LocallyAssigned(s) => (7, utf8_bytes(s.as_str())),
        }
    }
}

impl LldpPortId {
    /// Parse from SNMP raw values (subtype byte + value bytes). A textual subtype whose payload
    /// is not text, or is no identifier, yields `None`.
    pub fn from_snmp(subtype: u8, value: &[u8]) -> (r: Option<Self>)
        ensures
            port_opt(r) == port_from_snmp_spec(subtype, value@),
    {
        match subtype {
            1 => match decode_tlv_name(value) {
                Some(t) => Some(LldpPortId::InterfaceAlias(t)),
                None => None,
            },
            2 => match decode_tlv_name(value) {
                Some(t) => Some(LldpPortId::PortComponent(t)),
                None => None,
            },
            3 => match parse_mac_id(value) {
                Some(m) => Some(LldpPortId::MacAddress(m)),
                None => None,
            },
            4 => match parse_network_address(value) {
                Some(a) => Some(LldpPortId::NetworkAddress(a)),
                None => None,
            },
            5 => match decode_tlv_name(value) {
                Some(t) => Some(LldpPortId::InterfaceName(t)),
                None => None,
            },
            6 => match decode_tlv_name(value) {
                Some(t) => Some(LldpPortId::AgentCircuitId(t)),
                None => None,
            },
            7 => match decode_tlv_name(value) {
                Some(t) => Some(LldpPortId::LocallyAssigned(t)),
                None => None,
            },
            _ => None,
        }
    }

    /// Build a port ID from an identifier string with no subtype byte.
    pub fn from_identifier_str(value: &str) -> (r: Self)
        ensures
            r@ == port_from_identifier_spec(value@),
    {
        match canonical_mac(value) {
            Some(mac) => LldpPortId::MacAddress(mac),
            None => LldpPortId::LocallyAssigned(string_of(chars_of(value).as_slice())),
        }
    }

    /// The subtype and value bytes an agent advertising this identifier would send.
    pub fn to_snmp(&self, mac_encoding: MacEncoding) -> (r: (u8, Vec<u8>))
        ensures
            (r.0, r.1@) == port_to_snmp_spec(self@, mac_encoding),
    {
        match self {
            LldpPortId::InterfaceAlias(s) => (1, utf8_bytes(s.as_str())),
            LldpPortId::PortComponent(s) => (2, utf8_bytes(s.as_str())),
            LldpPortId::MacAddress(s) => (3, mac_encoding.encode_identifier(s.as_str())),
            LldpPortId::NetworkAddress(a) => (4, encode_network_address(a)),
            LldpPortId::InterfaceName(s) => (5, utf8_bytes(s.as_str())),
            LldpPortId::AgentCircuitId(s) => (6, utf8_bytes(s.as_str())),
            LldpPortId::LocallyAssigned(s) => (7, utf8_bytes(s.as_str())),
        }
    }
}

// ---------------------------------------------------------------------------------------------
// What survives the wire
// ---------------------------------------------------------------------------------------------

/// A hexadecimal digit is neither padding nor a colon nor a plus sign.
proof fn lemma_hex_digit_is_plain(n: u8, upper: bool)
    requires
        n < 16,
    ensures
        !is_unicode_ws(hex_digit_spec(n, upper)),
        hex_digit_spec(n, upper) != ':',
        hex_digit_spec(n, upper) != '-',
        hex_digit_spec(n, upper) != '+',
        hex_digit_spec(n, upper) != '\0',
{
    let c = hex_digit_spec(n, upper);
    if n < 10 {
        assert(c as u32 == n + 48);
    } else if upper {
        assert(c as u32 == n + 55);
    } else {
        assert(c as u32 == n + 87);
    }
}

/// Text that neither starts nor ends with padding is its own trim.
proof fn lemma_trim_unpadded(s: Seq<char>)
    requires
        s.len() > 0,
        !is_unicode_ws(s[0]),
        !is_unicode_ws(s.last()),
    ensures
        trim_spec(s) == s,
{
}

/// A MAC written in the colon form, in either case, reads back as its octets.
pub proof fn lemma_mac_text_value_of_colon_form(b: Seq<u8>, upper: bool)
    requires
        b.len() == 6,
    ensures
        mac_text_value(hex_join(b, ':', full_style(upper))) == Some(b),
{
    let style = full_style(upper);
    let s = hex_join(b, ':', style);
    lemma_hex_join_ascii(b, ':', style);
    crate::text::lemma_hex_join_positions(b, ':', upper);
    lemma_split_mac_hex(b, style);
    let gs = split_mac(s);
    assert forall|i: int| 0 <= i < 6 implies radix16_u8(#[trigger] gs[i]) == Some(b[i]) by {
        lemma_full_group_reads_back(b[i], upper);
    }
    assert(Seq::new(6, |i: int| if i < gs.len() { radix16_u8(gs[i])->0 } else { 0u8 }) =~= b);
}

/// An octet written two digits each reads back as itself.
proof fn lemma_full_group_reads_back(x: u8, upper: bool)
    ensures
        radix16_u8(crate::text::octet_text(x, full_style(upper))) == Some(x),
{
    let g = crate::text::octet_text(x, full_style(upper));
    lemma_hex_digit_is_plain(x / 16, upper);
    crate::text::lemma_hex_digit_value(x / 16, upper);
    crate::text::lemma_hex_digit_value(x % 16, upper);
    assert(g.len() == 2);
    assert(g[0] != '+');
    assert(g[0] == hex_digit_spec(x / 16, upper) && g[1] == hex_digit_spec(x % 16, upper)) by {
        if upper {
            assert(full_style(upper) == HexStyle::Upper);
        } else {
            assert(full_style(upper) == HexStyle::Lower);
        }
    }
    let h = g.drop_last();
    assert(h =~= seq![g[0]]);
    assert(h.drop_last() =~= Seq::<char>::empty());
    assert(h.last() == g[0]);
    assert(hex_number(h.drop_last()) == Some(0nat));
    assert(hex_number(h) == Some((x / 16) as nat));
    assert(hex_number(g) == Some(((x / 16) * 16 + x % 16) as nat));
}

/// The network-address format reads back the address it wrote.
pub proof fn lemma_network_address_round_trip(a: IpAddress)
    ensures
        network_address_spec(network_address_bytes(a)) == Some(a),
{
    let v = network_address_bytes(a);
    match a {
        IpAddress::V4(x0, x1, x2, x3) => {
            assert(v[0] == 1 && v[1] == x0 && v[2] == x1 && v[3] == x2 && v[4] == x3);
        },
        IpAddress::V6(s0, s1, s2, s3, s4, s5, s6, s7) => {
            assert(v.len() == 17 && v[0] == 2);
            lemma_seg_hi_lo(s0);
            lemma_seg_hi_lo(s1);
            lemma_seg_hi_lo(s2);
            lemma_seg_hi_lo(s3);
            lemma_seg_hi_lo(s4);
            lemma_seg_hi_lo(s5);
            lemma_seg_hi_lo(s6);
            lemma_seg_hi_lo(s7);
            assert(v[1] == hi(s0) && v[2] == lo(s0) && v[3] == hi(s1) && v[4] == lo(s1));
            assert(v[5] == hi(s2) && v[6] == lo(s2) && v[7] == hi(s3) && v[8] == lo(s3));
            assert(v[9] == hi(s4) && v[10] == lo(s4) && v[11] == hi(s5) && v[12] == lo(s5));
            assert(v[13] == hi(s6) && v[14] == lo(s6) && v[15] == hi(s7) && v[16] == lo(s7));
        },
    }
}

proof fn lemma_seg_hi_lo(x: u16)
    ensures
        seg(hi(x), lo(x)) == x,
{
    assert(x / 256 < 256);
    assert((x / 256) * 256 + x % 256 == x) by (nonlinear_arith);
}

/// Text sent in UTF-8 decodes back as itself.
proof fn lemma_utf8_round_trip(s: Seq<char>)
    ensures
        valid_utf8(encode_utf8(s)),
        decode_utf8(encode_utf8(s)) == s,
        crate::text::lossy_text(encode_utf8(s)) == s,
{
    vstd::utf8::encode_utf8_valid_utf8(s);
    vstd::utf8::encode_utf8_decode_utf8(s);
}

/// A MAC in its canonical form: six octets, two lower-case digits each, colon-separated.
pub open spec fn is_canonical_mac(s: Seq<char>) -> bool {
    exists|b: Seq<u8>| b.len() == 6 && s == #[trigger] hex_join(b, ':', HexStyle::Lower)
}

/// What a chassis id must hold to come back from the wire as itself: text without NULs (a NUL
/// is dropped on the way in), a MAC in its canonical form, or any address.
pub open spec fn chassis_wire_stable(id: ChassisView) -> bool {
    match id {
        ChassisView::ChassisComponent(s) => !s.contains('\0'),
        ChassisView::InterfaceAlias(s) => !s.contains('\0'),
        ChassisView::PortComponent(s) => !s.contains('\0'),
        ChassisView::MacAddress(s) => is_canonical_mac(s),
        ChassisView::NetworkAddress(_) => true,
        ChassisView::InterfaceName(s) => !s.contains('\0'),
        ChassisView::LocallyAssigned(s) => !s.contains('\0'),
    }
}

/// What a port id must hold to come back from the wire as itself: text already in the form a
/// port identifier is stored in, a MAC in its canonical form, or any address.
pub open spec fn port_wire_stable(id: PortView) -> bool {
    match id {
        PortView::InterfaceAlias(s) => accept_spec(s) == Some(s),
        PortView::PortComponent(s) => accept_spec(s) == Some(s),
        PortView::MacAddress(s) => is_canonical_mac(s),
        PortView::NetworkAddress(_) => true,
        PortView::InterfaceName(s) => accept_spec(s) == Some(s),
        PortView::AgentCircuitId(s) => accept_spec(s) == Some(s),
        PortView::LocallyAssigned(s) => accept_spec(s) == Some(s),
    }
}

/// A canonical MAC is sent as its six octets and read back as itself.
proof fn lemma_canonical_mac_as_octets(s: Seq<char>)
    requires
        is_canonical_mac(s),
    ensures
        mac_identifier_encoded(MacEncoding::Octets, s).len() == 6,
        mac_id_spec(mac_identifier_encoded(MacEncoding::Octets, s)) == Some(s),
{
    let b = choose|b: Seq<u8>| b.len() == 6 && s == #[trigger] hex_join(b, ':', HexStyle::Lower);
    assert(full_style(false) == HexStyle::Lower);
    lemma_mac_text_value_of_colon_form(b, false);
}

/// Text without NULs survives a textual chassis subtype.
proof fn lemma_chassis_text_round_trip(s: Seq<char>)
    requires
        !s.contains('\0'),
    ensures
        tlv_text_spec(encode_utf8(s)) == s,
{
    lemma_utf8_round_trip(s);
    assert forall|i: int| 0 <= i < s.len() implies #[trigger] s[i] != '\0' by {
        if s[i] == '\0' {
            assert(s.contains('\0'));
        }
    }
    crate::text::lemma_without_nuls_identity(s);
}

/// Every chassis id comes back from the wire as itself: what an agent sends for it (a MAC as
/// its six octets) is read back as the same identifier, for every subtype.
pub proof fn lemma_a_chassis_id_survives_the_wire(id: ChassisView)
    requires
        chassis_wire_stable(id),
    ensures
        chassis_from_snmp_spec(
            chassis_to_snmp_spec(id, MacEncoding::Octets).0,
            chassis_to_snmp_spec(id, MacEncoding::Octets).1,
        ) == Some(id),
{
    match id {
        ChassisView::ChassisComponent(s) => lemma_chassis_text_round_trip(s),
        ChassisView::InterfaceAlias(s) => lemma_chassis_text_round_trip(s),
        ChassisView::PortComponent(s) => lemma_chassis_text_round_trip(s),
        ChassisView::MacAddress(s) => lemma_canonical_mac_as_octets(s),
        ChassisView::NetworkAddress(a) => lemma_network_address_round_trip(a),
        ChassisView::InterfaceName(s) => lemma_chassis_text_round_trip(s),
        ChassisView::LocallyAssigned(s) => lemma_chassis_text_round_trip(s),
    }
}

/// Every port id comes back from the wire as itself: what an agent sends for it (a MAC as its
/// six octets) is read back as the same identifier, for every subtype.
pub proof fn lemma_a_port_id_survives_the_wire(id: PortView)
    requires
        port_wire_stable(id),
    ensures
        port_from_snmp_spec(
            port_to_snmp_spec(id, MacEncoding::Octets).0,
            port_to_snmp_spec(id, MacEncoding::Octets).1,
        ) == Some(id),
{
    match id {
        PortView::InterfaceAlias(s) => lemma_utf8_round_trip(s),
        PortView::PortComponent(s) => lemma_utf8_round_trip(s),
        PortView::MacAddress(s) => lemma_canonical_mac_as_octets(s),
        PortView::NetworkAddress(a) => lemma_network_address_round_trip(a),
        PortView::InterfaceName(s) => lemma_utf8_round_trip(s),
        PortView::AgentCircuitId(s) => lemma_utf8_round_trip(s),
        PortView::LocallyAssigned(s) => lemma_utf8_round_trip(s),
    }
}

/// A MAC sent as colon-separated text, in either case, reads back as its canonical form.
proof fn lemma_colon_text_reads_back(b: Seq<u8>, upper: bool)
    requires
        b.len() == 6,
    ensures
        mac_id_spec(encode_utf8(hex_join(b, ':', full_style(upper)))) == Some(hex_join(b, ':', HexStyle::Lower)),
{
    let t = hex_join(b, ':', full_style(upper));
    lemma_hex_join_ascii(b, ':', full_style(upper));
    vstd::utf8::is_ascii_chars_encode_utf8(t);
    crate::text::lemma_hex_join_positions(b, ':', upper);
    lemma_utf8_round_trip(t);
    assert(t[0] == hex_digit_spec(b[0] / 16, upper));
    assert(t[16int] == hex_digit_spec(b[5] % 16, upper));
    lemma_hex_digit_is_plain(b[0] / 16, upper);
    lemma_hex_digit_is_plain(b[5] % 16, upper);
    lemma_trim_unpadded(t);
    lemma_mac_text_value_of_colon_form(b, upper);
}

/// The characters of one octet written in any style are hexadecimal digits.
proof fn lemma_octet_text_plain(x: u8, style: HexStyle)
    ensures
        1 <= crate::text::octet_text(x, style).len() <= 2,
        forall|k: int|
            0 <= k < crate::text::octet_text(x, style).len() ==> {
                let c = #[trigger] crate::text::octet_text(x, style)[k];
                !is_unicode_ws(c) && c != ':' && c != '-' && c != '+'
            },
{
    lemma_hex_digit_is_plain(x / 16, false);
    lemma_hex_digit_is_plain(x % 16, false);
    lemma_hex_digit_is_plain(x / 16, true);
    lemma_hex_digit_is_plain(x % 16, true);
    if x < 16 {
        lemma_hex_digit_is_plain(x, false);
    }
}

/// An octet written without a leading zero reads back as itself.
proof fn lemma_short_group_reads_back(x: u8)
    ensures
        group_ok(crate::text::octet_text(x, HexStyle::Short)),
        hex_octet_spec(crate::text::octet_text(x, HexStyle::Short)) == Some(x),
{
    let g = crate::text::octet_text(x, HexStyle::Short);
    lemma_octet_text_plain(x, HexStyle::Short);
    assert(g[0] != '+');
    if x < 16 {
        crate::text::lemma_hex_digit_value(x, false);
    } else {
        crate::text::lemma_hex_digit_value(x / 16, false);
        crate::text::lemma_hex_digit_value(x % 16, false);
        assert(((x / 16) * 16 + x % 16) as u8 == x);
    }
}

/// Where the octets of a run are written: the text starts with the first octet's text and ends
/// with the last's, and is between two and three characters an octet long, less a separator.
proof fn lemma_hex_join_ends(bytes: Seq<u8>, sep: char, style: HexStyle)
    requires
        bytes.len() >= 1,
    ensures
        hex_join(bytes, sep, style)[0] == crate::text::octet_text(bytes[0], style)[0],
        hex_join(bytes, sep, style).last() == crate::text::octet_text(bytes.last(), style).last(),
        2 * bytes.len() - 1 <= hex_join(bytes, sep, style).len() <= 3 * bytes.len() - 1,
        bytes.len() >= 2 ==> hex_join(bytes, sep, style).contains(sep),
    decreases bytes.len(),
{
    lemma_octet_text_plain(bytes.last(), style);
    lemma_octet_text_plain(bytes[0], style);
    if bytes.len() > 1 {
        let init = bytes.drop_last();
        lemma_hex_join_ends(init, sep, style);
        let a = hex_join(init, sep, style).push(sep);
        assert(a[a.len() - 1] == sep);
        assert((a + crate::text::octet_text(bytes.last(), style))[a.len() - 1] == sep);
        assert(init[0] == bytes[0]);
    }
}

/// With every octet at least 16, no leading zero is dropped: the short form is the full one.
proof fn lemma_short_is_full_when_wide(bytes: Seq<u8>, sep: char)
    requires
        forall|i: int| 0 <= i < bytes.len() ==> #[trigger] bytes[i] >= 16,
    ensures
        hex_join(bytes, sep, HexStyle::Short) == hex_join(bytes, sep, HexStyle::Lower),
    decreases bytes.len(),
{
    if bytes.len() == 1 {
        assert(bytes[0] >= 16);
    } else if bytes.len() > 1 {
        let init = bytes.drop_last();
        assert forall|i: int| 0 <= i < init.len() implies #[trigger] init[i] >= 16 by {
            assert(init[i] == bytes[i]);
        }
        lemma_short_is_full_when_wide(init, sep);
        assert(bytes[bytes.len() - 1] >= 16);
    }
}

/// With some octet under 16, the short form is shorter than the full one.
proof fn lemma_short_is_shorter_when_narrow(bytes: Seq<u8>, sep: char, j: int)
    requires
        0 <= j < bytes.len(),
        bytes[j] < 16,
    ensures
        hex_join(bytes, sep, HexStyle::Short).len() < 3 * bytes.len() - 1,
    decreases bytes.len(),
{
    if bytes.len() > 1 {
        let init = bytes.drop_last();
        lemma_hex_join_ends(init, sep, HexStyle::Short);
        lemma_octet_text_plain(bytes.last(), HexStyle::Short);
        if j < bytes.len() - 1 {
            assert(init[j] == bytes[j]);
            lemma_short_is_shorter_when_narrow(init, sep, j);
        }
    }
}

/// Text without the separator is one group.
proof fn lemma_split_without_sep(y: Seq<char>, sep: char)
    requires
        !y.contains(sep),
    ensures
        split_on(y, sep) == seq![y],
    decreases y.len(),
{
    if y.len() > 0 {
        assert(!y.drop_last().contains(sep)) by {
            if y.drop_last().contains(sep) {
                let k = choose|k: int| 0 <= k < y.drop_last().len() && y.drop_last()[k] == sep;
                assert(y[k] == sep);
            }
        }
        lemma_split_without_sep(y.drop_last(), sep);
        assert(y.last() != sep) by {
            assert(y[y.len() - 1] == y.last());
        }
        assert(y.drop_last().push(y.last()) =~= y);
        let p = split_on(y.drop_last(), sep);
        assert(split_on(y, sep) == p.update(p.len() - 1, p.last().push(y.last())));
        assert(p.update(p.len() - 1, p.last().push(y.last())) =~= seq![y]);
    } else {
        assert(y =~= Seq::<char>::empty());
    }
}

/// Splitting after a separator: the groups before it, then what follows it as one more group.
proof fn lemma_split_after_sep(x: Seq<char>, y: Seq<char>, sep: char)
    requires
        !y.contains(sep),
    ensures
        split_on(x.push(sep) + y, sep) == split_on(x, sep).push(y),
    decreases y.len(),
{
    let z = x.push(sep) + y;
    if y.len() == 0 {
        assert(z =~= x.push(sep));
        assert(z.drop_last() =~= x);
        assert(z.last() == sep);
        assert(y =~= Seq::<char>::empty());
        assert(split_on(z, sep) == split_on(z.drop_last(), sep).push(Seq::empty()));
    } else {
        assert(!y.drop_last().contains(sep)) by {
            if y.drop_last().contains(sep) {
                let k = choose|k: int| 0 <= k < y.drop_last().len() && y.drop_last()[k] == sep;
                assert(y[k] == sep);
            }
        }
        lemma_split_after_sep(x, y.drop_last(), sep);
        assert(z.drop_last() =~= x.push(sep) + y.drop_last());
        assert(z.last() == y.last());
        assert(y.last() != sep) by {
            assert(y[y.len() - 1] == y.last());
        }
        let p = split_on(x, sep).push(y.drop_last());
        assert(split_on(z.drop_last(), sep) == p);
        assert(split_on(z, sep) == p.update(p.len() - 1, p.last().push(z.last())));
        assert(p.update(p.len() - 1, p.last().push(y.last())) =~= split_on(x, sep).push(y)) by {
            assert(y.drop_last().push(y.last()) =~= y);
        }
    }
}

/// Text without a colon or hyphen is one group.
proof fn lemma_split_mac_without_sep(y: Seq<char>)
    requires
        forall|k: int| 0 <= k < y.len() ==> !is_mac_sep(#[trigger] y[k]),
    ensures
        split_mac(y) == seq![y],
    decreases y.len(),
{
    if y.len() > 0 {
        lemma_split_mac_without_sep(y.drop_last());
        assert(!is_mac_sep(y.last())) by {
            assert(y[y.len() - 1] == y.last());
        }
        assert(y.drop_last().push(y.last()) =~= y);
        let p = split_mac(y.drop_last());
        assert(split_mac(y) == p.update(p.len() - 1, p.last().push(y.last())));
        assert(p.update(p.len() - 1, p.last().push(y.last())) =~= seq![y]);
    } else {
        assert(y =~= Seq::<char>::empty());
    }
}

/// Splitting after a colon: the groups before it, then what follows it as one more group.
proof fn lemma_split_mac_after_colon(x: Seq<char>, y: Seq<char>)
    requires
        forall|k: int| 0 <= k < y.len() ==> !is_mac_sep(#[trigger] y[k]),
    ensures
        split_mac(x.push(':') + y) == split_mac(x).push(y),
    decreases y.len(),
{
    let z = x.push(':') + y;
    if y.len() == 0 {
        assert(z =~= x.push(':'));
        assert(z.drop_last() =~= x);
        assert(z.last() == ':');
        assert(y =~= Seq::<char>::empty());
        assert(split_mac(z) == split_mac(z.drop_last()).push(Seq::empty()));
    } else {
        lemma_split_mac_after_colon(x, y.drop_last());
        assert(z.drop_last() =~= x.push(':') + y.drop_last());
        assert(z.last() == y.last());
        assert(!is_mac_sep(y.last())) by {
            assert(y[y.len() - 1] == y.last());
        }
        let p = split_mac(x).push(y.drop_last());
        assert(split_mac(z.drop_last()) == p);
        assert(split_mac(z) == p.update(p.len() - 1, p.last().push(z.last())));
        assert(p.update(p.len() - 1, p.last().push(y.last())) =~= split_mac(x).push(y)) by {
            assert(y.drop_last().push(y.last()) =~= y);
        }
    }
}

/// Octets written in hexadecimal and joined by colons split into one group per octet.
proof fn lemma_split_mac_hex(bytes: Seq<u8>, style: HexStyle)
    requires
        bytes.len() >= 1,
    ensures
        split_mac(hex_join(bytes, ':', style)) == Seq::new(
            bytes.len(),
            |i: int| crate::text::octet_text(bytes[i], style),
        ),
    decreases bytes.len(),
{
    let o = crate::text::octet_text(bytes.last(), style);
    lemma_octet_text_plain(bytes.last(), style);
    assert forall|k: int| 0 <= k < o.len() implies !is_mac_sep(#[trigger] o[k]) by {}
    if bytes.len() == 1 {
        lemma_split_mac_without_sep(o);
        assert(Seq::new(1, |i: int| crate::text::octet_text(bytes[i], style)) =~= seq![o]);
    } else {
        let init = bytes.drop_last();
        lemma_split_mac_hex(init, style);
        lemma_split_mac_after_colon(hex_join(init, ':', style), o);
        assert(Seq::new(init.len(), |i: int| crate::text::octet_text(init[i], style)).push(o) =~= Seq::new(
            bytes.len(),
            |i: int| crate::text::octet_text(bytes[i], style),
        ));
    }
}

/// A two-character group holding a colon is no octet.
proof fn lemma_group_with_colon_fails(g: Seq<char>)
    requires
        g.len() == 2,
        g[0] == ':' || g[1] == ':',
    ensures
        radix16_u8(g) is None,
{
    assert(hex_value(':') is None);
    let digits = if g.len() > 0 && g[0] == '+' {
        g.drop_first()
    } else {
        g
    };
    let j: int = if g[0] == ':' {
        0
    } else if g[0] == '+' {
        0
    } else {
        1
    };
    assert(digits[j] == ':');
    if digits.len() == 2 {
        let h = digits.drop_last();
        assert(h.drop_last().len() == 0);
        if j == 0 {
            assert(h.last() == ':');
            assert(hex_number(h) is None);
        } else {
            assert(digits.last() == ':');
        }
        assert(hex_number(digits) is None);
    } else {
        assert(digits.len() == 1);
        assert(digits.drop_last().len() == 0);
        assert(digits.last() == ':');
        assert(hex_number(digits) is None);
    }
}

/// The short form splits on its separators into one group per octet.
proof fn lemma_split_short(bytes: Seq<u8>)
    requires
        bytes.len() >= 1,
    ensures
        split_on(hex_join(bytes, ':', HexStyle::Short), ':') == Seq::new(
            bytes.len(),
            |i: int| crate::text::octet_text(bytes[i], HexStyle::Short),
        ),
    decreases bytes.len(),
{
    let o = crate::text::octet_text(bytes.last(), HexStyle::Short);
    lemma_octet_text_plain(bytes.last(), HexStyle::Short);
    assert(!o.contains(':'));
    if bytes.len() == 1 {
        lemma_split_without_sep(o, ':');
        assert(Seq::new(1, |i: int| crate::text::octet_text(bytes[i], HexStyle::Short)) =~= seq![o]);
    } else {
        let init = bytes.drop_last();
        lemma_split_short(init);
        lemma_split_after_sep(hex_join(init, ':', HexStyle::Short), o, ':');
        assert(Seq::new(init.len(), |i: int| crate::text::octet_text(init[i], HexStyle::Short)).push(o)
            =~= Seq::new(bytes.len(), |i: int| crate::text::octet_text(bytes[i], HexStyle::Short)));
    }
}

/// A MAC sent as text with unpadded octets reads back as its canonical form.
proof fn lemma_short_text_reads_back(b: Seq<u8>)
    requires
        b.len() == 6,
    ensures
        mac_id_spec(encode_utf8(hex_join(b, ':', HexStyle::Short))) == Some(hex_join(b, ':', HexStyle::Lower)),
{
    if forall|i: int| 0 <= i < b.len() ==> #[trigger] b[i] >= 16 {
        lemma_short_is_full_when_wide(b, ':');
        assert(full_style(false) == HexStyle::Lower);
        lemma_colon_text_reads_back(b, false);
    } else {
        let j = choose|j: int| 0 <= j < b.len() && !(#[trigger] b[j] >= 16);
        lemma_short_is_shorter_when_narrow(b, ':', j);
        let t = hex_join(b, ':', HexStyle::Short);
        lemma_hex_join_ascii(b, ':', HexStyle::Short);
        vstd::utf8::is_ascii_chars_encode_utf8(t);
        lemma_utf8_round_trip(t);
        lemma_hex_join_ends(b, ':', HexStyle::Short);
        lemma_octet_text_plain(b[0], HexStyle::Short);
        lemma_octet_text_plain(b.last(), HexStyle::Short);
        let first = crate::text::octet_text(b[0], HexStyle::Short);
        let last = crate::text::octet_text(b.last(), HexStyle::Short);
        assert(!is_unicode_ws(first[0]));
        assert(!is_unicode_ws(last[last.len() - 1]));
        lemma_trim_unpadded(t);
        if t.len() == 12 {
            let k = choose|k: int| 0 <= k < t.len() && t[k] == ':';
            let i = k / 2;
            let g = t.subrange(2 * i, 2 * i + 2);
            assert(g[k - 2 * i] == ':');
            lemma_group_with_colon_fails(g);
            assert(!(radix16_u8(t.subrange(2 * i, 2 * i + 2)) is Some));
        }
        assert(mac_text_value(t) is None);
        lemma_split_short(b);
        let groups = split_on(t, ':');
        assert forall|i: int| 0 <= i < 6 implies group_ok(#[trigger] groups[i]) by {
            lemma_short_group_reads_back(b[i]);
        }
        assert(Seq::new(6, |i: int| hex_octet_spec(groups[i])->0) =~= b) by {
            assert forall|i: int| 0 <= i < 6 implies hex_octet_spec(groups[i])->0 == b[i] by {
                lemma_short_group_reads_back(b[i]);
            }
        }
    }
}

/// All four encodings of one address reach one identity: a MAC identifier is sent in whichever
/// encoding the agent uses, and every one of them reads back, as a chassis id and as a port id,
/// as the same address in its canonical form.
pub proof fn lemma_every_mac_encoding_reads_back(b: Seq<u8>, enc: MacEncoding)
    requires
        b.len() == 6,
    ensures
        mac_id_spec(mac_encoded(enc, b)) == Some(hex_join(b, ':', HexStyle::Lower)),
        chassis_to_snmp_spec(ChassisView::MacAddress(hex_join(b, ':', HexStyle::Lower)), enc) == (
            4u8,
            mac_encoded(enc, b),
        ),
        chassis_from_snmp_spec(4, mac_encoded(enc, b)) == Some(
            ChassisView::MacAddress(hex_join(b, ':', HexStyle::Lower)),
        ),
        port_to_snmp_spec(PortView::MacAddress(hex_join(b, ':', HexStyle::Lower)), enc) == (
            3u8,
            mac_encoded(enc, b),
        ),
        port_from_snmp_spec(3, mac_encoded(enc, b)) == Some(
            PortView::MacAddress(hex_join(b, ':', HexStyle::Lower)),
        ),
{
    assert(full_style(false) == HexStyle::Lower);
    lemma_mac_text_value_of_colon_form(b, false);
    match enc {
        MacEncoding::Octets => {},
        MacEncoding::AsciiLower => {
            assert(full_style(false) == HexStyle::Lower);
            lemma_colon_text_reads_back(b, false);
        },
        MacEncoding::AsciiUpper => {
            assert(full_style(true) == HexStyle::Upper);
            lemma_colon_text_reads_back(b, true);
        },
        MacEncoding::AsciiAbbreviated => lemma_short_text_reads_back(b),
    }
}

// ---------------------------------------------------------------------------------------------
// The identifier a resolution looks up
// ---------------------------------------------------------------------------------------------

/// The chassis identifier as text: an address in its text form, anything else as carried.
pub open spec fn chassis_identifier_text(id: ChassisView) -> Seq<char> {
    match id {
        ChassisView::NetworkAddress(a) => ip_text(a),
        ChassisView::ChassisComponent(s) => s,
        ChassisView::InterfaceAlias(s) => s,
        ChassisView::PortComponent(s) => s,
        ChassisView::MacAddress(s) => s,
        ChassisView::InterfaceName(s) => s,
        ChassisView::LocallyAssigned(s) => s,
    }
}

/// The name a port identifier gives its port, for the subtypes that name one.
pub open spec fn port_name_text(id: PortView) -> Option<Seq<char>> {
    match id {
        PortView::InterfaceAlias(s) => Some(s),
        PortView::PortComponent(s) => Some(s),
        PortView::InterfaceName(s) => Some(s),
        PortView::AgentCircuitId(s) => Some(s),
        PortView::LocallyAssigned(s) => Some(s),
        PortView::MacAddress(_) => None,
        PortView::NetworkAddress(_) => None,
    }
}

impl LldpChassisId {
    /// The identifier as the remote device advertised it, in the canonical form a scanned host's
    /// own chassis id is stored in, so the two can be matched.
    pub fn identifier(&self) -> (r: String)
        ensures
            r@ == chassis_identifier_text(self@),
    {
        match self {
            LldpChassisId::NetworkAddress(a) => string_of(a.text().as_slice()),
            LldpChassisId::ChassisComponent(s) => s.clone(),
            LldpChassisId::InterfaceAlias(s) => s.clone(),
            LldpChassisId::PortComponent(s) => s.clone(),
            LldpChassisId::MacAddress(s) => s.clone(),
            LldpChassisId::InterfaceName(s) => s.clone(),
            LldpChassisId::LocallyAssigned(s) => s.clone(),
        }
    }
}

impl LldpPortId {
    /// The port's name, when the subtype is one that names a port rather than encoding a MAC or
    /// an address.
    pub fn port_name(&self) -> (r: Option<&str>)
        ensures
            match r {
                Some(n) => port_name_text(self@) == Some(n@),
                None => port_name_text(self@) is None,
            },
    {
        match self {
            LldpPortId::InterfaceAlias(s) => Some(s.as_str()),
            LldpPortId::PortComponent(s) => Some(s.as_str()),
            LldpPortId::InterfaceName(s) => Some(s.as_str()),
            LldpPortId::AgentCircuitId(s) => Some(s.as_str()),
            LldpPortId::LocallyAssigned(s) => Some(s.as_str()),
            LldpPortId::MacAddress(_) => None,
            LldpPortId::NetworkAddress(_) => None,
        }
    }

    /// The port's MAC, when the port identifier is one.
    pub fn port_mac(&self) -> (r: Option<&str>)
        ensures
            match r {
                Some(m) => self@ == PortView::MacAddress(m@),
                None => !(self@ is MacAddress),
            },
    {
        match self {
            LldpPortId::MacAddress(s) => Some(s.as_str()),
            _ => None,
        }
    }
}

// ---------------------------------------------------------------------------------------------
// Resolution outcomes
// ---------------------------------------------------------------------------------------------

/// Outcome of resolving an advertised identifier to a stored entity.
#[derive(Debug, Clone, Copy, PartialEq, Eq, Structural)]
pub enum IdentityResolution {
    /// Matched exactly one entity.
    Resolved(u128),
    /// No lookup strategy applies to the advertised identifier.
    NoStrategy,
    /// A strategy ran and matched nothing.
    NotFound,
    /// A strategy ran and matched more than one entity, so the identifier does not identify.
    Ambiguous,
}

/// How many rows a lookup on a non-unique column matched.
#[derive(Debug, Clone, Copy, PartialEq, Eq, Structural)]
pub enum Unique {
    One(u128),
    NoMatch,
    Multiple,
}

impl IdentityResolution {
    /// `Resolved(id)` for a match, otherwise `NotFound`; never `Ambiguous`.
    pub fn found(found: Option<u128>) -> (r: Self)
        ensures
            r == (match found {
                Some(id) => IdentityResolution::Resolved(id),
                None => IdentityResolution::NotFound,
            }),
    {
        match found {
            Some(id) => IdentityResolution::Resolved(id),
            None => IdentityResolution::NotFound,
        }
    }

    /// The storage layer's verdict, carried through unchanged.
    pub fn from_unique(found: Unique) -> (r: Self)
        ensures
            r == (match found {
                Unique::One(id) => IdentityResolution::Resolved(id),
                Unique::NoMatch => IdentityResolution::NotFound,
                Unique::Multiple => IdentityResolution::Ambiguous,
            }),
    {
        match found {
            Unique::One(id) => IdentityResolution::Resolved(id),
            Unique::NoMatch => IdentityResolution::NotFound,
            Unique::Multiple => IdentityResolution::Ambiguous,
        }
    }

    /// Whether a tier produced no entity, so a ladder should keep going.
    pub fn is_unresolved(self) -> (r: bool)
        ensures
            r == !(self is Resolved),
    {
        !matches!(self, IdentityResolution::Resolved(_))
    }
}

// ---------------------------------------------------------------------------------------------
// Resolution ladders
// ---------------------------------------------------------------------------------------------

/// One lookup a host resolution can make, in the inventory of one network.
#[derive(Debug, Clone, PartialEq, Eq)]
pub enum HostLookup {
    /// `ip_addresses.mac_address`, then `interfaces.mac_address`.
    ByMac(String),
    /// `ip_addresses.ip_address`.
    ByIp(IpAddress),
    /// `interfaces.if_descr`.
    ByIfName(String),
    /// `hosts.chassis_id`.
    ByChassisId(String),
    /// `hosts.sys_name`, on a single match only.
    BySysName(String),
}

pub enum HostLookupView {
    ByMac(Seq<char>),
    ByIp(IpAddress),
    ByIfName(Seq<char>),
    ByChassisId(Seq<char>),
    BySysName(Seq<char>),
}

impl View for HostLookup {
    type V = HostLookupView;

    open spec fn view(&self) -> HostLookupView {
        match self {
            HostLookup::ByMac(s) => HostLookupView::ByMac(s@),
            HostLookup::ByIp(a) => HostLookupView::ByIp(*a),
            HostLookup::ByIfName(s) => HostLookupView::ByIfName(s@),
            HostLookup::ByChassisId(s) => HostLookupView::ByChassisId(s@),
            HostLookup::BySysName(s) => HostLookupView::BySysName(s@),
        }
    }
}

/// One lookup a port resolution can make, among one host's interfaces.
#[derive(Debug, Clone, PartialEq, Eq)]
pub enum PortLookup {
    /// `interfaces.mac_address`, when the MAC belongs to exactly one of the host's ports.
    ByMac(String),
    /// The interface whose IP assignment is this address.
    ByIp(IpAddress),
    /// `if_descr`, `if_name` or `if_alias`, on a single match only.
    ByName(String),
    /// `if_index`.
    ByIfIndex(i32),
}

pub enum PortLookupView {
    ByMac(Seq<char>),
    ByIp(IpAddress),
    ByName(Seq<char>),
    ByIfIndex(i32),
}

impl View for PortLookup {
    type V = PortLookupView;

    open spec fn view(&self) -> PortLookupView {
        match self {
            PortLookup::ByMac(s) => PortLookupView::ByMac(s@),
            PortLookup::ByIp(a) => PortLookupView::ByIp(*a),
            PortLookup::ByName(s) => PortLookupView::ByName(s@),
            PortLookup::ByIfIndex(n) => PortLookupView::ByIfIndex(*n),
        }
    }
}

/// The lookup that matches a chassis identifier against the kind of column it actually is.
pub open spec fn subtype_lookup(id: ChassisView) -> Seq<HostLookupView> {
    match id {
        ChassisView::MacAddress(s) => seq![HostLookupView::ByMac(s)],
        ChassisView::NetworkAddress(a) => seq![HostLookupView::ByIp(a)],
        ChassisView::InterfaceName(s) => seq![HostLookupView::ByIfName(s)],
        ChassisView::ChassisComponent(s) => seq![HostLookupView::ByChassisId(s)],
        ChassisView::LocallyAssigned(s) => seq![HostLookupView::ByChassisId(s)],
        ChassisView::InterfaceAlias(_) => Seq::empty(),
        ChassisView::PortComponent(_) => Seq::empty(),
    }
}

/// The host lookups for a chassis identifier, in order: the subtype's own strategy, then the
/// identifier against `hosts.chassis_id` whatever the subtype, then the advertised system name
/// (trimmed) against `hosts.sys_name`.
pub open spec fn host_lookups_spec(id: ChassisView, sys_name: Option<Seq<char>>) -> Seq<
    HostLookupView,
> {
    let by_identifier = if chassis_identifier_text(id).len() > 0 {
        seq![HostLookupView::ByChassisId(chassis_identifier_text(id))]
    } else {
        Seq::empty()
    };
    let by_sys_name = match sys_name {
        Some(n) => if trim_spec(n).len() > 0 {
            seq![HostLookupView::BySysName(trim_spec(n))]
        } else {
            Seq::empty()
        },
        None => Seq::empty(),
    };
    subtype_lookup(id) + by_identifier + by_sys_name
}

/// The port lookups for a port identifier, in order. A device-local name is trimmed; a blank
/// one has no lookup; a name that also reads as an integer is tried as an ifIndex after it is
/// tried as a name.
pub open spec fn port_lookups_spec(id: PortView) -> Seq<PortLookupView> {
    match id {
        PortView::MacAddress(s) => seq![PortLookupView::ByMac(s)],
        PortView::NetworkAddress(a) => seq![PortLookupView::ByIp(a)],
        PortView::InterfaceAlias(s) => local_port_lookups(s),
        PortView::PortComponent(s) => local_port_lookups(s),
        PortView::InterfaceName(s) => local_port_lookups(s),
        PortView::AgentCircuitId(s) => local_port_lookups(s),
        PortView::LocallyAssigned(s) => local_port_lookups(s),
    }
}

pub open spec fn local_port_lookups(s: Seq<char>) -> Seq<PortLookupView> {
    let t = trim_spec(s);
    if t.len() == 0 {
        Seq::empty()
    } else {
        match std_parse_int(t, true, i32::MIN as int, i32::MAX as int) {
            Some(n) => seq![PortLookupView::ByName(t), PortLookupView::ByIfIndex(n as i32)],
            None => seq![PortLookupView::ByName(t)],
        }
    }
}

/// The first tier that resolved, if any.
pub open spec fn first_resolved(outcomes: Seq<IdentityResolution>) -> Option<u128>
    decreases outcomes.len(),
{
    if outcomes.len() == 0 {
        None
    } else if outcomes[0] is Resolved {
        Some(outcomes[0]->Resolved_0)
    } else {
        first_resolved(outcomes.drop_first())
    }
}

/// What a ladder answers, given the outcome of each lookup it made in order: the first tier
/// that resolved; failing that `Ambiguous` if any tier matched several entities; failing that
/// `NotFound` if any lookup applied at all, and `NoStrategy` if none did.
pub open spec fn ladder_verdict_spec(outcomes: Seq<IdentityResolution>, planned: bool) -> IdentityResolution {
    match first_resolved(outcomes) {
        Some(id) => IdentityResolution::Resolved(id),
        None => if exists|i: int| 0 <= i < outcomes.len() && outcomes[i] == IdentityResolution::Ambiguous {
            IdentityResolution::Ambiguous
        } else if planned {
            IdentityResolution::NotFound
        } else {
            IdentityResolution::NoStrategy
        },
    }
}

fn push_host_lookup(out: &mut Vec<HostLookup>, l: HostLookup)
    ensures
        final(out)@.len() == old(out)@.len() + 1,
        forall|i: int| 0 <= i < old(out)@.len() ==> final(out)@[i] == old(out)@[i],
        final(out)@.last()@ == l@,
{
    out.push(l);
}

impl LldpChassisId {
    /// The lookups that resolve this chassis identifier to a host, in the order they are tried.
    /// The caller makes them in turn, stops at the first that resolves, and hands the outcomes
    /// to [`ladder_verdict`].
    pub fn host_lookups(&self, sys_name: Option<&str>) -> (r: Vec<HostLookup>)
        ensures
            r@.len() == host_lookups_spec(self@, opt_str(sys_name)).len(),
            forall|i: int| 0 <= i < r@.len() ==> #[trigger] r@[i]@ == host_lookups_spec(
                self@,
                opt_str(sys_name),
            )[i],
    {
        let mut out: Vec<HostLookup> = Vec::new();
        match self {
            LldpChassisId::MacAddress(s) => push_host_lookup(&mut out, HostLookup::ByMac(s.clone())),
            LldpChassisId::NetworkAddress(a) => push_host_lookup(&mut out, HostLookup::ByIp(*a)),
            LldpChassisId::InterfaceName(s) => push_host_lookup(&mut out, HostLookup::ByIfName(s.clone())),
            LldpChassisId::ChassisComponent(s) => push_host_lookup(
                &mut out,
                HostLookup::ByChassisId(s.clone()),
            ),
            LldpChassisId::LocallyAssigned(s) => push_host_lookup(
                &mut out,
                HostLookup::ByChassisId(s.clone()),
            ),
            LldpChassisId::InterfaceAlias(_) => {},
            LldpChassisId::PortComponent(_) => {},
        }
        let ghost first = out@;
        assert(first.len() == subtype_lookup(self@).len());
        assert(forall|i: int| 0 <= i < first.len() ==> #[trigger] first[i]@ == subtype_lookup(self@)[i]);
        let identifier = self.identifier();
        if !identifier.as_str().is_empty() {
            push_host_lookup(&mut out, HostLookup::ByChassisId(identifier));
        }
        let ghost second = out@;
        match sys_name {
            Some(n) => {
                let t = trim_str(n);
                if !t.as_str().is_empty() {
                    push_host_lookup(&mut out, HostLookup::BySysName(t));
                }
            },
            None => {},
        }
        proof {
            let spec = host_lookups_spec(self@, opt_str(sys_name));
            assert(out@.len() == spec.len());
            assert forall|i: int| 0 <= i < out@.len() implies #[trigger] out@[i]@ == spec[i] by {
                if i < first.len() {
                    assert(out@[i] == first[i]);
                } else if i < second.len() {
                    assert(out@[i] == second[i]);
                }
            }
        }
        out
    }
}

/// Each chassis identifier is looked up first in the column its subtype says it is: a MAC among
/// MACs, a network address among IP addresses, an interface name among interface names, a
/// chassis component or local identifier among chassis ids; the two subtypes with no reliable
/// column get no lookup of their own. Then, for every subtype, the identifier is tried as a
/// chassis id, and last the advertised system name, trimmed.
pub proof fn lemma_each_identifier_is_looked_up_where_it_lives(id: ChassisView, sys_name: Option<Seq<char>>)
    ensures
        id matches ChassisView::MacAddress(s) ==> host_lookups_spec(id, sys_name)[0] == HostLookupView::ByMac(s),
        id matches ChassisView::NetworkAddress(a) ==> host_lookups_spec(id, sys_name)[0] == HostLookupView::ByIp(a),
        id matches ChassisView::InterfaceName(s) ==> host_lookups_spec(id, sys_name)[0] == HostLookupView::ByIfName(s),
        id matches ChassisView::ChassisComponent(s) ==> host_lookups_spec(id, sys_name)[0] == HostLookupView::ByChassisId(s),
        id matches ChassisView::LocallyAssigned(s) ==> host_lookups_spec(id, sys_name)[0] == HostLookupView::ByChassisId(s),
        ({
            let own: int = if id is InterfaceAlias || id is PortComponent { 0 } else { 1 };
            let lookups = host_lookups_spec(id, sys_name);
            &&& own <= lookups.len()
            &&& (id is InterfaceAlias || id is PortComponent) ==> forall|i: int|
                0 <= i < lookups.len() ==> (#[trigger] lookups[i] is ByChassisId || lookups[i] is BySysName)
            &&& chassis_identifier_text(id).len() > 0 ==> lookups[own] == HostLookupView::ByChassisId(
                chassis_identifier_text(id),
            )
            &&& (sys_name matches Some(n) && trim_spec(n).len() > 0) ==> lookups.last()
                == HostLookupView::BySysName(trim_spec(sys_name->0))
            &&& lookups.len() <= 3
        }),
{
    let lookups = host_lookups_spec(id, sys_name);
    if id is InterfaceAlias || id is PortComponent {
        assert forall|i: int| 0 <= i < lookups.len() implies (#[trigger] lookups[i] is ByChassisId
            || lookups[i] is BySysName) by {}
    }
}

/// Each port identifier is looked up in the column its subtype says it is: a MAC among the
/// host's port MACs, a network address among its port addresses, and any device-local name,
/// trimmed, among its port names first (then, when it also reads as a number, as an ifIndex); a
/// blank name has no lookup.
pub proof fn lemma_each_port_identifier_is_looked_up_where_it_lives(id: PortView)
    ensures
        id matches PortView::MacAddress(s) ==> port_lookups_spec(id) == seq![PortLookupView::ByMac(s)],
        id matches PortView::NetworkAddress(a) ==> port_lookups_spec(id) == seq![PortLookupView::ByIp(a)],
        ({
            let local: Option<Seq<char>> = match id {
                PortView::InterfaceAlias(s) => Some(s),
                PortView::PortComponent(s) => Some(s),
                PortView::InterfaceName(s) => Some(s),
                PortView::AgentCircuitId(s) => Some(s),
                PortView::LocallyAssigned(s) => Some(s),
                _ => None,
            };
            local matches Some(s) ==> {
                &&& trim_spec(s).len() == 0 ==> port_lookups_spec(id).len() == 0
                &&& trim_spec(s).len() > 0 ==> port_lookups_spec(id).len() >= 1 && port_lookups_spec(id)[0]
                    == PortLookupView::ByName(trim_spec(s))
                &&& port_lookups_spec(id).len() <= 2
                &&& forall|i: int|
                    1 <= i < port_lookups_spec(id).len() ==> #[trigger] port_lookups_spec(id)[i] is ByIfIndex
            }
        }),
{
}

/// An optional borrowed string as an optional value.
pub open spec fn opt_str(o: Option<&str>) -> Option<Seq<char>> {
    match o {
        Some(s) => Some(s@),
        None => None,
    }
}

impl LldpPortId {
    /// The lookups that resolve this port identifier among one already-resolved host's
    /// interfaces, in the order they are tried.
    pub fn port_lookups(&self) -> (r: Vec<PortLookup>)
        ensures
            r@.len() == port_lookups_spec(self@).len(),
            forall|i: int| 0 <= i < r@.len() ==> #[trigger] r@[i]@ == port_lookups_spec(self@)[i],
    {
        match self {
            LldpPortId::MacAddress(s) => {
                let v = vec![PortLookup::ByMac(s.clone())];
                v
            },
            LldpPortId::NetworkAddress(a) => {
                let v = vec![PortLookup::ByIp(*a)];
                v
            },
            LldpPortId::InterfaceAlias(s) => local_port_lookups_of(s.as_str()),
            LldpPortId::PortComponent(s) => local_port_lookups_of(s.as_str()),
            LldpPortId::InterfaceName(s) => local_port_lookups_of(s.as_str()),
            LldpPortId::AgentCircuitId(s) => local_port_lookups_of(s.as_str()),
            LldpPortId::LocallyAssigned(s) => local_port_lookups_of(s.as_str()),
        }
    }
}

fn local_port_lookups_of(s: &str) -> (r: Vec<PortLookup>)
    ensures
        r@.len() == local_port_lookups(s@).len(),
        forall|i: int| 0 <= i < r@.len() ==> #[trigger] r@[i]@ == local_port_lookups(s@)[i],
{
    let t = trim_str(s);
    if t.as_str().is_empty() {
        return Vec::new();
    }
    let index = parse_i32(t.as_str());
    let mut out: Vec<PortLookup> = Vec::new();
    out.push(PortLookup::ByName(t.clone()));
    match index {
        Some(n) => out.push(PortLookup::ByIfIndex(n)),
        None => {},
    }
    out
}

/// The verdict of a resolution ladder, from the outcomes of the lookups it made, in order.
/// `planned` says whether the ladder had any lookup to make.
pub fn ladder_verdict(outcomes: &[IdentityResolution], planned: bool) -> (r: IdentityResolution)
    ensures
        r == ladder_verdict_spec(outcomes@, planned),
{
    let mut saw_ambiguous = false;
    let mut i: usize = 0;
    assert(outcomes@.subrange(0, outcomes@.len() as int) =~= outcomes@);
    while i < outcomes.len()
        invariant
            i <= outcomes@.len(),
            first_resolved(outcomes@) == first_resolved(outcomes@.subrange(i as int, outcomes@.len() as int)),
            saw_ambiguous == exists|j: int| 0 <= j < i && outcomes@[j] == IdentityResolution::Ambiguous,
        decreases outcomes.len() - i,
    {
        let ghost rest = outcomes@.subrange(i as int, outcomes@.len() as int);
        assert(rest.drop_first() =~= outcomes@.subrange(i + 1, outcomes@.len() as int));
        match outcomes[i] {
            IdentityResolution::Resolved(id) => {
                return IdentityResolution::Resolved(id);
            },
            IdentityResolution::Ambiguous => {
                saw_ambiguous = true;
            },
            _ => {},
        }
        i = i + 1;
    }
    assert(outcomes@.subrange(i as int, outcomes@.len() as int).len() == 0);
    if saw_ambiguous {
        IdentityResolution::Ambiguous
    } else if planned {
        IdentityResolution::NotFound
    } else {
        IdentityResolution::NoStrategy
    }
}

proof fn lemma_first_resolved_prefix(outcomes: Seq<IdentityResolution>, k: int)
    requires
        0 <= k < outcomes.len(),
        outcomes[k] is Resolved,
        forall|j: int| 0 <= j < k ==> !(#[trigger] outcomes[j] is Resolved),
    ensures
        first_resolved(outcomes) == Some(outcomes[k]->Resolved_0),
        first_resolved(outcomes.take(k + 1)) == Some(outcomes[k]->Resolved_0),
    decreases k,
{
    if k > 0 {
        assert(outcomes.take(k + 1).drop_first() =~= outcomes.drop_first().take(k));
        lemma_first_resolved_prefix(outcomes.drop_first(), k - 1);
    }
}

/// A ladder that stops at the first tier that resolves answers what it would have answered
/// had it made every lookup: the entity that tier found, whatever earlier tiers reported,
/// ambiguity included.
pub proof fn lemma_stopping_at_the_first_resolution(
    outcomes: Seq<IdentityResolution>,
    planned: bool,
    k: int,
)
    requires
        0 <= k < outcomes.len(),
        outcomes[k] is Resolved,
        forall|j: int| 0 <= j < k ==> !(#[trigger] outcomes[j] is Resolved),
    ensures
        ladder_verdict_spec(outcomes.take(k + 1), planned) == ladder_verdict_spec(outcomes, planned),
        ladder_verdict_spec(outcomes, planned) == outcomes[k],
{
    lemma_first_resolved_prefix(outcomes, k);
}

} // verus!
