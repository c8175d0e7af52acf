use scanopy::lldp::{
    accept_port_identifier, canonical_mac, ladder_verdict, HostLookup, IdentityResolution, LldpChassisId,
    LldpPortId, MacEncoding, PortLookup, Unique, port_identifier_refusal, tlv_name_refusal, PortIdRefusal,
};
use scanopy::net::IpAddress;

fn chassis_variants() -> Vec<LldpChassisId> {
    vec![
        LldpChassisId::ChassisComponent("backplane-1".into()),
        LldpChassisId::InterfaceAlias("uplink to core".into()),
        LldpChassisId::PortComponent("port-7".into()),
        LldpChassisId::MacAddress("00:1a:2b:3c:4d:5e".into()),
        LldpChassisId::NetworkAddress(IpAddress::V4(192, 0, 2, 7)),
        LldpChassisId::InterfaceName("GigabitEthernet0/1".into()),
        LldpChassisId::LocallyAssigned("C230408".into()),
    ]
}

fn port_variants() -> Vec<LldpPortId> {
    vec![
        LldpPortId::InterfaceAlias("Ring port to peer".into()),
        LldpPortId::PortComponent("slot0-3".into()),
        LldpPortId::MacAddress("00:07:7c:20:01:e3".into()),
        LldpPortId::NetworkAddress(IpAddress::V4(198, 51, 100, 4)),
        LldpPortId::InterfaceName("ethernet1/1/14:1".into()),
        LldpPortId::AgentCircuitId("circuit-9".into()),
        LldpPortId::LocallyAssigned("41".into()),
    ]
}

#[test]
fn every_identifier_variant_survives_the_wire() {
    assert_eq!(chassis_variants().len(), 7);
    assert_eq!(port_variants().len(), 7);

    for id in chassis_variants() {
        let (subtype, value) = id.to_snmp(MacEncoding::Octets);
        assert_eq!(LldpChassisId::from_snmp(subtype, &value), Some(id));
    }
    for id in port_variants() {
        let (subtype, value) = id.to_snmp(MacEncoding::Octets);
        assert_eq!(LldpPortId::from_snmp(subtype, &value), Some(id));
    }
}

#[test]
fn every_mac_encoding_reads_back_as_the_same_address() {
    let mac: mac_address::MacAddress = "00:ad:24:af:4e:00".parse().unwrap();
    let expected = LldpChassisId::MacAddress("00:ad:24:af:4e:00".into());

    for encoding in [
        MacEncoding::Octets,
        MacEncoding::AsciiLower,
        MacEncoding::AsciiUpper,
        MacEncoding::AsciiAbbreviated,
    ] {
        let (subtype, value) = expected.to_snmp(encoding);
        assert_eq!(subtype, 4);
        assert_eq!(
            LldpChassisId::from_snmp(subtype, &value),
            Some(expected.clone()),
            "{encoding:?} did not read back as the same address"
        );
    }

    assert_eq!(MacEncoding::Octets.encode(mac.bytes()).len(), 6);
    assert_eq!(MacEncoding::AsciiLower.encode(mac.bytes()), b"00:ad:24:af:4e:00");
    assert_eq!(MacEncoding::AsciiUpper.encode(mac.bytes()), b"00:AD:24:AF:4E:00");
    assert_eq!(MacEncoding::AsciiAbbreviated.encode(mac.bytes()), b"0:ad:24:af:4e:0");
}

#[test]
fn test_chassis_id_from_snmp_mac() {
    let mac_bytes = [0x00, 0x1a, 0x2b, 0x3c, 0x4d, 0x5e];
    let chassis_id = LldpChassisId::from_snmp(4, &mac_bytes);
    assert_eq!(
        chassis_id,
        Some(LldpChassisId::MacAddress("00:1a:2b:3c:4d:5e".to_string()))
    );
}

#[test]
fn test_chassis_id_from_snmp_mac_ascii_string() {
    let ascii = b"48:A9:8A:BD:B4:7D";
    let chassis_id = LldpChassisId::from_snmp(4, ascii);
    assert_eq!(
        chassis_id,
        Some(LldpChassisId::MacAddress("48:a9:8a:bd:b4:7d".to_string()))
    );
}

#[test]
fn test_chassis_id_from_snmp_mac_ascii_unpadded() {
    let ascii = b"0:1a:2b:0:10:0";
    assert_eq!(
        LldpChassisId::from_snmp(4, ascii),
        Some(LldpChassisId::MacAddress("00:1a:2b:00:10:00".to_string())),
        "an unpadded ASCII MAC must normalize to the same canonical form as a padded one"
    );
}

#[test]
fn test_mac_encodings_agree_on_one_canonical_form() {
    let raw = LldpChassisId::from_snmp(4, &[0x00, 0x1a, 0x2b, 0x00, 0x10, 0x00]);
    let padded = LldpChassisId::from_snmp(4, b"00:1a:2b:00:10:00");
    let unpadded = LldpChassisId::from_snmp(4, b"0:1a:2b:0:10:0");
    assert_eq!(raw, padded);
    assert_eq!(raw, unpadded);
}

#[test]
fn test_identifier_str_agrees_with_snmp_canonical_form() {
    let from_snmp = LldpChassisId::from_snmp(4, &[0x00, 0x1a, 0x2b, 0x3c, 0x4d, 0x5e]);
    assert_eq!(
        LldpChassisId::from_identifier_str("0:1A:2b:3C:4d:5E"),
        from_snmp.unwrap()
    );
    assert_eq!(
        LldpPortId::from_identifier_str("00:1A:2B:3C:4D:5E"),
        LldpPortId::from_snmp(3, &[0x00, 0x1a, 0x2b, 0x3c, 0x4d, 0x5e]).unwrap()
    );
}

#[test]
fn test_identifier_str_does_not_read_short_names_as_macs() {
    for name in ["Switch", "ap-101", "core01"] {
        assert_eq!(
            LldpChassisId::from_identifier_str(name),
            LldpChassisId::LocallyAssigned(name.to_string()),
            "expected {name:?} to stay an opaque identifier"
        );
    }
}

#[test]
fn test_identifier_str_non_mac_is_locally_assigned() {
    assert_eq!(
        LldpChassisId::from_identifier_str("edge-switch.lan"),
        LldpChassisId::LocallyAssigned("edge-switch.lan".to_string())
    );
    assert_eq!(
        LldpPortId::from_identifier_str("Port 7"),
        LldpPortId::LocallyAssigned("Port 7".to_string())
    );
}

#[test]
fn test_port_id_from_snmp_mac_ascii_unpadded() {
    assert_eq!(
        LldpPortId::from_snmp(3, b"0:c:29:aa:bb:c0"),
        Some(LldpPortId::MacAddress("00:0c:29:aa:bb:c0".to_string()))
    );
}

#[test]
fn test_chassis_id_from_snmp_mac_rejects_non_macs() {
    for not_a_mac in [
        &b"0:1a:2b:0:10"[..],
        &b"0:1a:2b:0:10:0:5"[..],
        &b"0:1a:2b:0:10:zz"[..],
        &b"0:1a:2b:0:10:000"[..],
        &b"not-a-mac-at-all"[..],
    ] {
        assert_eq!(
            LldpChassisId::from_snmp(4, not_a_mac),
            None,
            "expected {:?} to be rejected",
            String::from_utf8_lossy(not_a_mac)
        );
    }
}

#[test]
fn test_chassis_id_from_snmp_mac_invalid() {
    let chassis_id = LldpChassisId::from_snmp(4, b"not-a-mac");
    assert_eq!(chassis_id, None);
}

#[test]
fn test_port_id_from_snmp_mac_raw_octets() {
    let mac_bytes = [0x00, 0x1a, 0x2b, 0x3c, 0x4d, 0x5e];
    let port_id = LldpPortId::from_snmp(3, &mac_bytes);
    assert_eq!(
        port_id,
        Some(LldpPortId::MacAddress("00:1a:2b:3c:4d:5e".to_string()))
    );
}

#[test]
fn test_port_id_from_snmp_mac_ascii_string() {
    let ascii = b"48:A9:8A:BD:B4:7D";
    let port_id = LldpPortId::from_snmp(3, ascii);
    assert_eq!(
        port_id,
        Some(LldpPortId::MacAddress("48:a9:8a:bd:b4:7d".to_string()))
    );
}

#[test]
fn test_chassis_id_from_snmp_locally_assigned() {
    let id_bytes = b"switch-1";
    let chassis_id = LldpChassisId::from_snmp(7, id_bytes);
    assert_eq!(
        chassis_id,
        Some(LldpChassisId::LocallyAssigned("switch-1".to_string()))
    );
}

#[test]
fn test_chassis_id_from_snmp_ipv4() {
    let addr_bytes = [1, 192, 168, 1, 1];
    let chassis_id = LldpChassisId::from_snmp(5, &addr_bytes);
    assert_eq!(
        chassis_id,
        Some(LldpChassisId::NetworkAddress(IpAddress::V4(192, 168, 1, 1)))
    );
}

#[test]
fn test_port_id_from_snmp_interface_name() {
    let name_bytes = b"GigabitEthernet0/1";
    let port_id = LldpPortId::from_snmp(5, name_bytes);
    assert_eq!(
        port_id,
        Some(LldpPortId::InterfaceName("GigabitEthernet0/1".to_string()))
    );
}

#[test]
fn every_transport_normalises_padding_the_same_way() {
    for padded in ["swp2\n", " swp2", "swp2\t", "\r\nswp2 "] {
        assert_eq!(
            accept_port_identifier("test", padded).as_deref(),
            Some("swp2"),
            "padding should be normalised, not refused: {padded:?}"
        );
    }
    assert_eq!(
        accept_port_identifier("test", " \u{fffd}\nv ").as_deref(),
        None
    );
    assert_eq!(accept_port_identifier("test", "   ").as_deref(), Some(""));
}

#[test]
fn tlv_text_decoding_strips_nul_padding() {
    assert_eq!(
        LldpPortId::from_snmp(5, b"1\0"),
        Some(LldpPortId::InterfaceName("1".to_string()))
    );
    assert_eq!(
        LldpPortId::from_snmp(7, b"eth1/0/51\0\0"),
        Some(LldpPortId::LocallyAssigned("eth1/0/51".to_string()))
    );
    assert_eq!(
        LldpChassisId::from_snmp(7, b"switch4\0"),
        Some(LldpChassisId::LocallyAssigned("switch4".to_string()))
    );
}

#[test]
fn a_declared_port_name_that_is_not_text_is_no_identifier() {
    const FROM_THE_FIELD: &[u8] = &[0xb3, 0x0a, 0x76];

    assert_eq!(LldpPortId::from_snmp(5, FROM_THE_FIELD), None);
    for subtype in [1, 2, 5, 6, 7] {
        assert_eq!(
            LldpPortId::from_snmp(subtype, FROM_THE_FIELD),
            None,
            "port subtype {subtype} kept a payload that is not text"
        );
    }
    for subtype in [1, 2, 3, 6, 7] {
        assert!(
            LldpChassisId::from_snmp(subtype, FROM_THE_FIELD).is_some(),
            "chassis subtype {subtype} started rejecting"
        );
    }
    assert_eq!(
        LldpChassisId::from_snmp(6, FROM_THE_FIELD),
        Some(LldpChassisId::InterfaceName("\u{fffd}\nv".to_string())),
        "the chassis decode must stay byte-identical to its behaviour before this fix"
    );
}

#[test]
fn a_declared_port_name_holding_control_characters_is_no_identifier() {
    assert_eq!(LldpPortId::from_snmp(5, b"swp\n2"), None);
    assert_eq!(LldpPortId::from_snmp(5, b"swp\x012"), None);
    assert_eq!(LldpPortId::from_snmp(7, b"switch\x7f4"), None);
    assert_eq!(LldpPortId::from_snmp(5, "swp\u{fffd}2".as_bytes()), None);
    assert_eq!(
        LldpChassisId::from_snmp(7, b"switch\x7f4"),
        Some(LldpChassisId::LocallyAssigned("switch\u{7f}4".to_string()))
    );
}

#[test]
fn a_real_port_name_still_decodes_unchanged() {
    assert_eq!(
        LldpPortId::from_snmp(5, b"swp2"),
        Some(LldpPortId::InterfaceName("swp2".to_string()))
    );
    assert_eq!(
        LldpPortId::from_snmp(5, b"ethernet1/1/14:1"),
        Some(LldpPortId::InterfaceName("ethernet1/1/14:1".to_string()))
    );
    assert_eq!(
        LldpPortId::from_snmp(1, "Ring port to peer".as_bytes()),
        Some(LldpPortId::InterfaceAlias("Ring port to peer".to_string()))
    );
    assert_eq!(
        LldpChassisId::from_snmp(7, "Anschluß-4".as_bytes()),
        Some(LldpChassisId::LocallyAssigned("Anschluß-4".to_string()))
    );
    assert_eq!(
        LldpPortId::from_snmp(5, b""),
        Some(LldpPortId::InterfaceName(String::new()))
    );
}

#[test]
fn the_d_link_nul_terminated_port_id_survives_the_guard() {
    assert_eq!(
        LldpPortId::from_snmp(5, b"1\0"),
        Some(LldpPortId::InterfaceName("1".to_string()))
    );
    assert_eq!(
        accept_port_identifier("test", "1\0").as_deref(),
        Some("1"),
        "the shared string boundary must strip the same padding the SNMP decode does"
    );
}

// ---------------------------------------------------------------------------------------------
// The identifier a resolution looks up, and the resolution ladders
// ---------------------------------------------------------------------------------------------

#[test]
fn a_network_address_chassis_id_is_looked_up_by_its_text() {
    assert_eq!(
        LldpChassisId::NetworkAddress(IpAddress::V4(10, 0, 0, 1)).identifier(),
        "10.0.0.1"
    );
    assert_eq!(
        LldpChassisId::NetworkAddress(IpAddress::V6(0x2001, 0xdb8, 0, 0, 0, 0, 0, 1)).identifier(),
        "2001:db8::1"
    );
    assert_eq!(
        LldpChassisId::MacAddress("00:1a:2b:3c:4d:5e".into()).identifier(),
        "00:1a:2b:3c:4d:5e"
    );
}

#[test]
fn a_mac_chassis_id_tries_its_subtype_then_the_chassis_column_then_the_sys_name() {
    let id = LldpChassisId::MacAddress("00:ad:24:af:4e:00".into());
    assert_eq!(
        id.host_lookups(Some("  core-sw1 ")),
        vec![
            HostLookup::ByMac("00:ad:24:af:4e:00".into()),
            HostLookup::ByChassisId("00:ad:24:af:4e:00".into()),
            HostLookup::BySysName("core-sw1".into()),
        ]
    );
}

#[test]
fn an_alias_chassis_id_has_no_subtype_strategy() {
    let id = LldpChassisId::InterfaceAlias(String::new());
    assert_eq!(id.host_lookups(Some("   ")), vec![]);
    assert_eq!(ladder_verdict(&[], false), IdentityResolution::NoStrategy);

    let id = LldpChassisId::PortComponent("p7".into());
    assert_eq!(
        id.host_lookups(None),
        vec![HostLookup::ByChassisId("p7".into())]
    );
}

#[test]
fn a_device_local_port_id_is_tried_as_a_name_and_then_as_an_index() {
    assert_eq!(
        LldpPortId::InterfaceName(" 2 ".into()).port_lookups(),
        vec![PortLookup::ByName("2".into()), PortLookup::ByIfIndex(2)]
    );
    assert_eq!(
        LldpPortId::LocallyAssigned("Slot0/3".into()).port_lookups(),
        vec![PortLookup::ByName("Slot0/3".into())]
    );
    assert_eq!(LldpPortId::AgentCircuitId("  ".into()).port_lookups(), vec![]);
    assert_eq!(
        LldpPortId::MacAddress("00:07:7c:20:01:e3".into()).port_lookups(),
        vec![PortLookup::ByMac("00:07:7c:20:01:e3".into())]
    );
}

#[test]
fn an_ambiguous_tier_does_not_stop_a_later_one_from_resolving() {
    let outcomes = [
        IdentityResolution::Ambiguous,
        IdentityResolution::NotFound,
        IdentityResolution::Resolved(7),
    ];
    assert_eq!(ladder_verdict(&outcomes, true), IdentityResolution::Resolved(7));
    assert_eq!(
        ladder_verdict(&outcomes[..2], true),
        IdentityResolution::Ambiguous,
        "an identifier naming two devices outranks one naming none"
    );
    assert_eq!(
        ladder_verdict(&[IdentityResolution::NotFound], true),
        IdentityResolution::NotFound
    );
}

#[test]
fn a_storage_verdict_is_carried_through_unchanged() {
    assert_eq!(
        IdentityResolution::from_unique(Unique::One(3)),
        IdentityResolution::Resolved(3)
    );
    assert_eq!(
        IdentityResolution::from_unique(Unique::NoMatch),
        IdentityResolution::NotFound
    );
    assert_eq!(
        IdentityResolution::from_unique(Unique::Multiple),
        IdentityResolution::Ambiguous
    );
    assert_eq!(IdentityResolution::found(Some(9)), IdentityResolution::Resolved(9));
    assert_eq!(IdentityResolution::found(None), IdentityResolution::NotFound);
}

#[test]
fn a_port_id_names_a_port_or_carries_its_mac() {
    assert_eq!(
        LldpPortId::InterfaceName("Ten-GigabitEthernet1/0/1".into()).port_name(),
        Some("Ten-GigabitEthernet1/0/1")
    );
    assert_eq!(LldpPortId::MacAddress("e8:80:88:be:30:e7".into()).port_name(), None);
    assert_eq!(
        LldpPortId::MacAddress("e8:80:88:be:30:e7".into()).port_mac(),
        Some("e8:80:88:be:30:e7")
    );
}

#[test]
fn an_accepted_identifier_is_accepted_again_unchanged_whatever_the_source() {
    let once = accept_port_identifier("snmp", " \0Gi1/0/1\0 ").expect("an identifier");
    assert_eq!(once, "Gi1/0/1");
    assert_eq!(accept_port_identifier("gnmi", &once).as_deref(), Some(once.as_str()));
    assert_eq!(accept_port_identifier("lldpd", " \0Gi1/0/1\0 ").as_deref(), Some("Gi1/0/1"));
}

#[test]
fn every_text_form_the_mac_parser_reads_is_canonicalised() {
    assert_eq!(canonical_mac("00-1A-2B-3C-4D-5E").as_deref(), Some("00:1a:2b:3c:4d:5e"));
    assert_eq!(canonical_mac("001a2b3c4d5e").as_deref(), Some("00:1a:2b:3c:4d:5e"));
    assert_eq!(canonical_mac("+a+b+c+d+e+f").as_deref(), Some("0a:0b:0c:0d:0e:0f"));
    assert_eq!(canonical_mac("1:2:3:4:5:6:7:8:9").as_deref(), Some("01:02:03:04:05:06"));
    assert_eq!(canonical_mac("0000a:0b:0c:0d:0e").as_deref(), Some("0a:0b:0c:0d:0e:00"));
    assert_eq!(canonical_mac("00:1a:2b:3c:4d:5g"), None);
    assert_eq!(canonical_mac("00:1a:2b:3c:4d:5ü"), None);
}

#[test]
fn a_refusal_names_the_bytes_it_refused() {
    assert_eq!(LldpPortId::from_snmp(5, &[0xb3, 0x0a, 0x76]), None);
    let snmp = tlv_name_refusal(&[0xb3, 0x0a, 0x76]).expect("the invalid-UTF-8 payload is refused");
    assert_eq!(accept_port_identifier("gnmi", "swp\n2"), None);
    let gnmi = port_identifier_refusal("gnmi", "swp\n2").expect("the control character is refused");
    let logged = format!("{snmp:?} {gnmi:?}");

    assert!(snmp.bytes.contains("b3 0a 76"), "the invalid-UTF-8 refusal did not name its bytes: {logged}");
    assert_eq!(snmp.source, "snmp", "the refusal did not name the transport: {logged}");
    assert!(gnmi.bytes.contains("73 77 70 0a 32"), "the control-character refusal did not name its bytes: {logged}");
    assert!(
        gnmi.escaped.as_deref().unwrap_or("").contains("swp\\n2"),
        "the refusal did not render the value readably: {logged}"
    );
}

#[test]
fn an_accepted_identifier_logs_nothing() {
    assert_eq!(LldpPortId::from_snmp(5, b"swp2"), Some(LldpPortId::InterfaceName("swp2".to_string())));
    let logged = tlv_name_refusal(b"swp2");
    assert!(logged.is_none(), "an accepted value warned: {logged:?}");
}

#[test]
fn a_refusal_is_exactly_the_source_the_hex_and_the_escaped_text() {
    assert_eq!(
        port_identifier_refusal("lldpd", "a\tb\u{7f}"),
        Some(PortIdRefusal {
            source: "lldpd".to_string(),
            bytes: "61 09 62 7f".to_string(),
            escaped: Some("a\\tb\\u{7f}".to_string()),
        })
    );
    assert_eq!(
        tlv_name_refusal(&[0xff]),
        Some(PortIdRefusal { source: "snmp".to_string(), bytes: "ff".to_string(), escaped: None })
    );
    assert_eq!(
        tlv_name_refusal(b"\x01"),
        Some(PortIdRefusal {
            source: "snmp".to_string(),
            bytes: "01".to_string(),
            escaped: Some("\\u{1}".to_string()),
        })
    );
    // Padding is no refusal: it is removed, and what is left is accepted.
    assert_eq!(port_identifier_refusal("snmp", " 1\0"), None);
    assert_eq!(tlv_name_refusal(b"1\0"), None);
}
