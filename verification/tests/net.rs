use scanopy::net::{parse_ip, IpAddress};

fn text(a: &IpAddress) -> String {
    a.text().into_iter().collect()
}

#[test]
fn ipv4_addresses_parse_and_print_in_dotted_quads() {
    assert_eq!(parse_ip("10.22.64.101"), Some(IpAddress::V4(10, 22, 64, 101)));
    assert_eq!(parse_ip("0.0.0.0"), Some(IpAddress::V4(0, 0, 0, 0)));
    assert_eq!(parse_ip("255.255.255.255"), Some(IpAddress::V4(255, 255, 255, 255)));
    assert_eq!(text(&IpAddress::V4(192, 168, 1, 100)), "192.168.1.100");
}

#[test]
fn malformed_ipv4_is_refused() {
    assert_eq!(parse_ip("256.0.0.1"), None);
    assert_eq!(parse_ip("1.2.3"), None);
    assert_eq!(parse_ip("1.2.3.4.5"), None);
    assert_eq!(parse_ip("01.2.3.4"), None, "a leading zero is refused, as std refuses it");
    assert_eq!(parse_ip(" 1.2.3.4"), None);
    assert_eq!(parse_ip(""), None);
}

#[test]
fn ipv6_addresses_parse_with_compression() {
    assert_eq!(
        parse_ip("fe80::deda:4dff:fe86:f4ea"),
        Some(IpAddress::V6(0xfe80, 0, 0, 0, 0xdeda, 0x4dff, 0xfe86, 0xf4ea))
    );
    assert_eq!(parse_ip("::"), Some(IpAddress::V6(0, 0, 0, 0, 0, 0, 0, 0)));
    assert_eq!(parse_ip("::1"), Some(IpAddress::V6(0, 0, 0, 0, 0, 0, 0, 1)));
    assert_eq!(
        parse_ip("::ffff:10.0.0.1"),
        Some(IpAddress::V6(0, 0, 0, 0, 0, 0xffff, 0x0a00, 0x0001))
    );
    assert_eq!(parse_ip("1::2::3"), None);
    assert_eq!(parse_ip("12345::"), None);
}

#[test]
fn ipv6_prints_as_std_does() {
    assert_eq!(text(&IpAddress::V6(0xfe80, 0, 0, 0, 0xdeda, 0x4dff, 0xfe86, 0xf4ea)), "fe80::deda:4dff:fe86:f4ea");
    assert_eq!(text(&IpAddress::V6(0, 0, 0, 0, 0, 0, 0, 1)), "::1");
    assert_eq!(text(&IpAddress::V6(0, 0, 0, 0, 0, 0, 0, 0)), "::");
    assert_eq!(text(&IpAddress::V6(1, 0, 0, 2, 0, 0, 0, 3)), "1:0:0:2::3", "the longest run is compressed");
    assert_eq!(text(&IpAddress::V6(1, 0, 2, 3, 4, 5, 6, 7)), "1:0:2:3:4:5:6:7", "a single zero is not");
    assert_eq!(text(&IpAddress::V6(0, 0, 0, 0, 0, 0xffff, 0x0a00, 0x0001)), "::ffff:10.0.0.1");
}

#[test]
fn printed_addresses_parse_back() {
    for a in [
        IpAddress::V4(10, 0, 0, 1),
        IpAddress::V6(0x2001, 0xdb8, 0, 0, 0, 0, 0, 1),
        IpAddress::V6(0, 0, 0, 0, 0, 0xffff, 0xc0a8, 0x0101),
    ] {
        assert_eq!(parse_ip(&text(&a)), Some(a));
    }
}
