use scanopy::interfaces::{
    identifier_is_resolvable, identity_columns, sql_has_no_resolvable_identity,
    sql_has_resolvable_identity, sql_identifier_is_resolvable, IfAdminStatus, IfOperStatus,
    Interface, InterfaceBase, InterfaceDataComplete, InterfaceLinkState, Neighbor, SQL_PADDING,
};
use scanopy::lldp::{LldpChassisId, LldpPortId};
use scanopy::net::IpAddress;

struct Shape {
    why: &'static str,
    base: InterfaceBase,
    resolvable: bool,
}

fn shape(why: &'static str, resolvable: bool, configure: impl FnOnce(&mut InterfaceBase)) -> Shape {
    let mut base = InterfaceBase::empty();
    configure(&mut base);
    Shape { why, base, resolvable }
}

fn shapes() -> Vec<Shape> {
    vec![
        shape("nothing at all", false, |_| {}),
        shape("an ordinary chassis MAC", true, |b| {
            b.lldp_chassis_id = Some(LldpChassisId::MacAddress("00:ad:24:af:4e:00".into()));
        }),
        shape("a chassis id that is a network address", true, |b| {
            b.lldp_chassis_id = Some(LldpChassisId::NetworkAddress(IpAddress::V4(10, 0, 0, 1)));
        }),
        shape("a chassis id present but empty", false, |b| {
            b.lldp_chassis_id = Some(LldpChassisId::LocallyAssigned(String::new()));
        }),
        shape("a chassis id that is only padding", false, |b| {
            b.lldp_chassis_id = Some(LldpChassisId::LocallyAssigned("  \t\r\n".into()));
        }),
        shape("a blank chassis id but a usable system name", true, |b| {
            b.lldp_chassis_id = Some(LldpChassisId::LocallyAssigned(String::new()));
            b.lldp_sys_name = Some("core-sw1".into());
        }),
        shape("a blank chassis id and a blank system name", false, |b| {
            b.lldp_chassis_id = Some(LldpChassisId::MacAddress(String::new()));
            b.lldp_sys_name = Some("  \t".into());
        }),
        shape("a system name and nothing else", false, |b| {
            b.lldp_sys_name = Some("core-sw1".into());
        }),
        shape("a CDP device id", true, |b| {
            b.cdp_device_id = Some("core-sw1.example.com".into());
        }),
        shape("a CDP device id present but empty", false, |b| {
            b.cdp_device_id = Some("   ".into());
        }),
        shape("a CDP management address and nothing else", false, |b| {
            b.cdp_address = Some(IpAddress::V4(192, 0, 2, 7));
        }),
        shape("an already-resolved neighbour and nothing else", false, |b| {
            b.neighbor = Some(Neighbor::Host(0));
        }),
        shape("a port id and nothing else", false, |b| {
            b.lldp_port_id = Some(LldpPortId::InterfaceName("Slot0/3".into()));
        }),
        shape("learned MAC addresses and nothing else", false, |b| {
            b.fdb_macs = Some(vec!["00:ad:24:af:4e:00".into()]);
        }),
        shape("a blank chassis id but a usable CDP device id", true, |b| {
            b.lldp_chassis_id = Some(LldpChassisId::LocallyAssigned(String::new()));
            b.cdp_device_id = Some("core-sw1".into());
        }),
        shape("a chassis id holding control characters", true, |b| {
            b.lldp_chassis_id = Some(LldpChassisId::LocallyAssigned("sw\u{1}1".into()));
        }),
    ]
}

#[test]
fn the_rust_predicate_answers_the_table() {
    for Shape { why, base, resolvable } in shapes() {
        assert_eq!(
            base.has_resolvable_identity(),
            resolvable,
            "has_resolvable_identity disagrees about {why}"
        );
    }
}

#[test]
fn an_arm_of_the_ladder_applies_to_exactly_the_rows_the_predicate_admits() {
    for Shape { why, base, .. } in shapes() {
        let an_arm_applies =
            base.resolvable_chassis_id().is_some() || base.resolvable_cdp_device_id().is_some();
        assert_eq!(
            an_arm_applies,
            base.has_resolvable_identity(),
            "the ladder and the predicate disagree about {why}"
        );
    }
}

#[test]
fn a_blank_chassis_id_does_not_take_the_ladders_first_arm() {
    let Shape { base, .. } = shape("", true, |b| {
        b.lldp_chassis_id = Some(LldpChassisId::LocallyAssigned(" ".into()));
        b.cdp_device_id = Some("core-sw1".into());
    });

    assert!(base.resolvable_chassis_id().is_none());
    assert_eq!(base.resolvable_cdp_device_id(), Some("core-sw1"));
}

#[test]
fn a_blank_chassis_id_with_a_system_name_still_takes_the_ladders_first_arm() {
    let Shape { base, .. } = shape("", true, |b| {
        b.lldp_chassis_id = Some(LldpChassisId::LocallyAssigned(String::new()));
        b.lldp_sys_name = Some("core-sw1".into());
    });

    assert!(base.has_resolvable_identity());
    assert!(base.resolvable_chassis_id().is_some());

    let Shape { base, .. } = shape("", false, |b| {
        b.lldp_sys_name = Some("core-sw1".into());
    });

    assert!(!base.has_resolvable_identity());
    assert!(base.resolvable_chassis_id().is_none());
}

/// What the SQL reads off a row, modelled on the columns as stored: the chassis id's text
/// member, trimmed of the padding set, falling back to the system name when a chassis id is
/// present at all.
fn sql_extracted(base: &InterfaceBase, column: &str) -> Option<String> {
    match column {
        "lldp_chassis_id" => match &base.lldp_chassis_id {
            Some(chassis) => {
                let value = btrim(&chassis.identifier());
                if value.is_empty() {
                    base.lldp_sys_name.clone()
                } else {
                    Some(value)
                }
            }
            None => None,
        },
        "cdp_device_id" => base.cdp_device_id.clone(),
        other => panic!("no SQL model for identity column {other}"),
    }
}

fn btrim(value: &str) -> String {
    value
        .trim_matches(|c: char| c.is_ascii_whitespace())
        .to_string()
}

fn carrying_only(column: &str) -> InterfaceBase {
    let mut base = InterfaceBase::empty();
    match column {
        "lldp_chassis_id" => {
            base.lldp_chassis_id = Some(LldpChassisId::MacAddress("00:ad:24:af:4e:00".into()));
        }
        "cdp_device_id" => base.cdp_device_id = Some("core-sw1.example.com".into()),
        other => panic!("no example row for identity column {other}"),
    }
    base
}

fn postgres_verdict(identifier: Option<&str>) -> bool {
    let btrimmed = identifier
        .unwrap_or("")
        .trim_matches(|c: char| c.is_ascii_whitespace());
    !btrimmed.is_empty()
}

#[test]
fn the_emitted_sql_is_the_fragment_this_model_reads() {
    assert_eq!(
        sql_identifier_is_resolvable("x"),
        r"coalesce(btrim(x, E' \t\n\r\x0C'), '') <> ''"
    );
    assert_eq!(
        sql_has_resolvable_identity(|c| format!("interfaces.{c}")),
        [
            r"(coalesce(btrim(coalesce(nullif(btrim(interfaces.lldp_chassis_id ->> 'value',",
            r" E' \t\n\r\x0C'), ''), case when interfaces.lldp_chassis_id ->> 'subtype' is not",
            r" null then interfaces.lldp_sys_name end), E' \t\n\r\x0C'), '') <> ''",
            r" OR coalesce(btrim(interfaces.cdp_device_id, E' \t\n\r\x0C'), '') <> '')",
        ]
        .concat()
    );
    assert_eq!(
        sql_has_no_resolvable_identity(|c| format!("interfaces.{c}")),
        format!(
            "NOT {}",
            sql_has_resolvable_identity(|c| format!("interfaces.{c}"))
        )
    );
}

#[test]
fn the_sql_padding_set_is_exactly_ascii_whitespace() {
    let body = SQL_PADDING
        .strip_prefix("E'")
        .and_then(|s| s.strip_suffix('\''))
        .expect("SQL_PADDING is a Postgres escape string");

    let mut trimmed_by_sql = Vec::new();
    let mut chars = body.chars();
    while let Some(c) = chars.next() {
        trimmed_by_sql.push(match c {
            '\\' => match chars.next().expect("an escape has a body") {
                't' => '\t',
                'n' => '\n',
                'r' => '\r',
                'x' => {
                    let hex: String = (&mut chars).take(2).collect();
                    let code = u32::from_str_radix(&hex, 16).expect("two hex digits");
                    char::from_u32(code).expect("a character")
                }
                other => panic!("unmodelled Postgres escape \\{other}"),
            },
            c => c,
        });
    }
    trimmed_by_sql.sort_unstable();

    let treated_as_padding_by_rust: Vec<char> = (0u8..=127)
        .map(char::from)
        .filter(char::is_ascii_whitespace)
        .collect();

    assert_eq!(trimmed_by_sql, treated_as_padding_by_rust);
}

#[test]
fn the_sql_semantics_answer_the_table_identically() {
    for Shape { why, base, resolvable } in shapes() {
        let by_sql = identity_columns()
            .iter()
            .any(|c| postgres_verdict(sql_extracted(&base, c.column).as_deref()));
        assert_eq!(by_sql, resolvable, "the SQL reading disagrees about {why}");
        assert_eq!(
            by_sql,
            base.has_resolvable_identity(),
            "the two readings disagree about {why}"
        );
    }
}

#[test]
fn every_column_in_the_list_reaches_the_sql() {
    let sql = sql_has_resolvable_identity(|c| format!("interfaces.{c}"));
    let columns = identity_columns();
    for column in &columns {
        assert!(
            sql.contains(&format!("interfaces.{}", column.column)),
            "{} is in the identity list but not in the SQL it generates",
            column.column
        );
    }
    assert_eq!(
        sql.matches(" <> ''").count(),
        columns.len(),
        "the SQL has a clause count the identity list does not explain"
    );
}

#[test]
fn every_column_in_the_list_reaches_an_arm_of_the_ladder() {
    for column in identity_columns() {
        let base = carrying_only(column.column);
        assert!(
            base.has_resolvable_identity(),
            "a row carrying only {} is not admitted by the predicate that lists it",
            column.column
        );
        assert!(
            base.resolvable_chassis_id().is_some() || base.resolvable_cdp_device_id().is_some(),
            "{} is an identity the ladder has no arm for",
            column.column
        );
    }
}

#[test]
fn padding_is_ascii_whitespace_and_nothing_else() {
    assert!(!identifier_is_resolvable(" \t\r\n\x0c"));
    assert!(identifier_is_resolvable("\x0b"), "a vertical tab is content");
    assert!(identifier_is_resolvable("\u{a0}"), "a non-breaking space is content");
    assert!(identifier_is_resolvable(" a "));
    assert!(!identifier_is_resolvable(""));
}

// ---------------------------------------------------------------------------------------------
// The interface row
// ---------------------------------------------------------------------------------------------

fn interface(configure: impl FnOnce(&mut InterfaceBase)) -> Interface {
    let mut base = InterfaceBase::empty();
    configure(&mut base);
    Interface::new(base).expect("the clock reads after 1970")
}

#[test]
fn only_a_mac_matched_port_is_worth_re_examining() {
    let by_mac = interface(|b| {
        b.lldp_chassis_id = Some(LldpChassisId::MacAddress("00:ad:24:af:4e:00".into()));
        b.lldp_port_id = Some(LldpPortId::MacAddress("00:ad:24:af:4e:00".into()));
    });
    assert!(by_mac.port_bound_by_mac());

    let by_name = interface(|b| {
        b.lldp_chassis_id = Some(LldpChassisId::MacAddress("00:ad:24:af:4e:00".into()));
        b.lldp_port_id = Some(LldpPortId::InterfaceName("Slot0/3".into()));
    });
    assert!(!by_name.port_bound_by_mac());
}

#[test]
fn a_single_mac_fdb_port_rests_on_the_same_assumption() {
    let single = interface(|b| b.fdb_macs = Some(vec!["00:ad:24:af:4e:00".into()]));
    assert!(single.port_bound_by_mac());

    let several = interface(|b| {
        b.fdb_macs = Some(vec!["00:ad:24:af:4e:00".into(), "00:ad:24:af:4e:01".into()])
    });
    assert!(!several.port_bound_by_mac());
}

#[test]
fn lldp_data_decides_a_row_that_also_carries_fdb_addresses() {
    let both = interface(|b| {
        b.lldp_chassis_id = Some(LldpChassisId::MacAddress("00:ad:24:af:4e:00".into()));
        b.lldp_port_id = Some(LldpPortId::InterfaceName("Slot0/3".into()));
        b.fdb_macs = Some(vec!["00:ad:24:af:4e:09".into()]);
    });
    assert!(!both.port_bound_by_mac());
}

/// 2026-07-01T00:00:00Z in microseconds since the epoch.
const PREVIOUS: i64 = 1_782_864_000_000_000;

#[test]
fn a_scan_carrying_evidence_stamps_it() {
    let mut existing = interface(|_| {});
    existing.base.neighbor_seen_at = Some(PREVIOUS);

    let mut incoming = interface(|b| {
        b.lldp_chassis_id = Some(LldpChassisId::MacAddress("00:ad:24:af:4e:00".into()));
    });
    incoming.stamp_neighbor_evidence(Some(&existing));

    assert_eq!(incoming.base.neighbor_seen_at, Some(incoming.last_seen_at));
}

#[test]
fn a_scan_carrying_no_evidence_leaves_the_stamp_where_it_was() {
    let mut existing = interface(|_| {});
    existing.base.neighbor_seen_at = Some(PREVIOUS);

    let mut incoming = interface(|_| {});
    incoming.stamp_neighbor_evidence(Some(&existing));

    assert_eq!(incoming.base.neighbor_seen_at, Some(PREVIOUS));
    assert_ne!(incoming.base.neighbor_seen_at, Some(incoming.last_seen_at));
}

#[test]
fn a_port_that_never_had_a_neighbour_is_never_stamped() {
    let mut incoming = interface(|_| {});
    incoming.stamp_neighbor_evidence(None);

    assert_eq!(incoming.base.neighbor_seen_at, None);
}

#[test]
fn an_identifier_resolution_cannot_use_is_not_evidence() {
    let port_id_only = interface(|b| {
        b.lldp_port_id = Some(LldpPortId::InterfaceName("Slot0/3".into()));
        b.lldp_port_desc = Some("uplink".into());
    });
    assert!(!port_id_only.has_neighbor_evidence());

    let many_macs = interface(|b| {
        b.fdb_macs = Some(vec!["00:ad:24:af:4e:00".into(), "00:ad:24:af:4e:01".into()])
    });
    assert!(!many_macs.has_neighbor_evidence());
}

#[test]
fn a_walk_that_was_cut_short_does_not_stamp() {
    let mut existing = interface(|b| {
        b.lldp_chassis_id = Some(LldpChassisId::MacAddress("00:ad:24:af:4e:00".into()));
    });
    existing.base.neighbor_seen_at = Some(PREVIOUS);

    let mut incoming = interface(|_| {});
    incoming.stamp_neighbor_evidence(Some(&existing));
    incoming.preserve_uncollected_data(
        &existing,
        InterfaceDataComplete {
            lldp: false,
            ..Default::default()
        },
    );

    assert_eq!(
        incoming.base.lldp_chassis_id, existing.base.lldp_chassis_id,
        "the restore this test exists to run ahead of must actually have happened"
    );
    assert_eq!(incoming.base.neighbor_seen_at, Some(PREVIOUS));
}

#[test]
fn a_port_id_that_encodes_a_mac_is_not_read_as_a_name() {
    let named = interface(|b| {
        b.lldp_port_id = Some(LldpPortId::InterfaceName("Ten-GigabitEthernet1/0/1".into()));
    });
    let port = named.advertised_far_end_port();
    assert_eq!(port.name.as_deref(), Some("Ten-GigabitEthernet1/0/1"));
    assert_eq!(port.mac, None);

    let by_mac = interface(|b| {
        b.lldp_port_id = Some(LldpPortId::MacAddress("e8:80:88:be:30:e7".into()));
    });
    let port = by_mac.advertised_far_end_port();
    assert_eq!(port.name, None, "a MAC identifies the port without naming it");
    assert_eq!(port.mac.as_deref(), Some("e8:80:88:be:30:e7"));
}

#[test]
fn a_far_end_port_falls_back_past_an_id_that_does_not_name_it() {
    let cdp = interface(|b| {
        b.lldp_port_id = Some(LldpPortId::MacAddress("e8:80:88:be:30:e7".into()));
        b.cdp_port_id = Some("GigabitEthernet1/0/8".into());
    });
    assert_eq!(
        cdp.advertised_far_end_port().name.as_deref(),
        Some("GigabitEthernet1/0/8"),
        "a CDP port id is the same statement under another protocol"
    );

    let desc_only = interface(|b| {
        b.lldp_port_desc = Some("  eth0  ".into());
    });
    assert_eq!(
        desc_only.advertised_far_end_port().name.as_deref(),
        Some("eth0"),
        "the description is last, and trimmed"
    );

    let blank = interface(|b| b.lldp_port_desc = Some("   ".into()));
    assert_eq!(
        blank.advertised_far_end_port().name,
        None,
        "whitespace is not a port name, and a row keyed on it would match nothing forever"
    );
}

#[test]
fn a_group_read_in_full_is_authoritative_and_one_cut_short_is_kept() {
    let existing = interface(|b| {
        b.lldp_sys_name = Some("old-lldp".into());
        b.cdp_device_id = Some("old-cdp".into());
        b.fdb_macs = Some(vec!["00:00:00:00:00:01".into()]);
        b.native_vlan_id = Some(10);
    });
    let mut incoming = interface(|b| b.if_name = Some("eth0".into()));
    incoming.preserve_uncollected_data(
        &existing,
        InterfaceDataComplete {
            lldp: true,
            cdp: false,
            fdb: true,
            vlan_membership: false,
        },
    );
    assert_eq!(incoming.base.lldp_sys_name, None);
    assert_eq!(incoming.base.cdp_device_id.as_deref(), Some("old-cdp"));
    assert_eq!(incoming.base.fdb_macs, None);
    assert_eq!(incoming.base.native_vlan_id, Some(10));
    assert_eq!(incoming.base.if_name.as_deref(), Some("eth0"));
}

#[test]
fn completeness_defaults_to_everything_and_none_keeps_everything() {
    assert!(InterfaceDataComplete::default().all());
    assert!(!InterfaceDataComplete::none().all());
    assert!(!InterfaceDataComplete { fdb: false, ..Default::default() }.all());
}

#[test]
fn a_port_is_linked_by_evidence_in_either_direction() {
    assert_eq!(InterfaceLinkState::classify(None, false), InterfaceLinkState::Unlinked);
    assert_eq!(InterfaceLinkState::classify(None, true), InterfaceLinkState::Linked);
    assert_eq!(
        InterfaceLinkState::classify(Some(&Neighbor::Host(1)), false),
        InterfaceLinkState::Linked
    );
    assert_eq!(InterfaceLinkState::Linked.id(), "Linked");
}

#[test]
fn status_numbers_read_as_the_mib_defines_them() {
    assert_eq!(IfAdminStatus::from(2), IfAdminStatus::Down);
    assert_eq!(IfAdminStatus::from(9), IfAdminStatus::Up);
    assert_eq!(IfOperStatus::from(7), IfOperStatus::LowerLayerDown);
    assert_eq!(IfOperStatus::from(0), IfOperStatus::Unknown);
    assert_eq!(IfOperStatus::Dormant.number(), 5);
    assert_eq!(IfAdminStatus::Testing.number(), 3);
}

#[test]
fn an_unread_status_is_not_up_and_labels_fall_back_in_order() {
    let mut port = interface(|b| {
        b.if_alias = Some(String::new());
        b.if_descr = Some("GigabitEthernet0/1".into());
    });
    assert!(!port.is_up());
    assert!(!port.is_admin_up());
    assert_eq!(port.display_name(), "GigabitEthernet0/1");
    port.base.oper_status = Some(IfOperStatus::Up);
    assert!(port.is_up());
    port.base.if_descr = None;
    port.base.mac_address = Some("00:11:22:33:44:55".into());
    assert_eq!(port.display_name(), "00:11:22:33:44:55");
    port.base.mac_address = None;
    assert_eq!(port.display_name(), "Interface");
}

#[test]
fn a_blank_name_is_recorded_as_absent() {
    let mut port = interface(|b| {
        b.if_name = Some("  ".into());
        b.if_alias = Some("uplink".into());
    });
    port.normalize_blank_identity();
    assert_eq!(port.base.if_name, None);
    assert_eq!(port.base.if_alias.as_deref(), Some("uplink"));
}

#[test]
fn an_interface_is_written_with_its_id_index_and_description() {
    let mut base = InterfaceBase::empty();
    base.if_index = Some(3);
    base.if_descr = Some("swp1".into());
    let mut port = Interface::new(base).expect("clock");
    port.id = 0x67e5504410b1426f9247bb680e5fe0c8;
    assert_eq!(port.text(), "Interface 67e55044-10b1-426f-9247-bb680e5fe0c8 (ifIndex 3): swp1");
    port.base.if_index = None;
    port.base.if_descr = None;
    port.id = 1;
    assert_eq!(port.text(), "Interface 00000000-0000-0000-0000-000000000001: (no description)");
    port.base.if_index = Some(-7);
    assert_eq!(port.text(), "Interface 00000000-0000-0000-0000-000000000001 (ifIndex -7): (no description)");
}

#[test]
fn only_a_topology_change_makes_an_entry_stale() {
    let mut base = InterfaceBase::empty();
    base.host_id = 4;
    let a = Interface::new(base.clone()).expect("clock");
    assert!(a.triggers_staleness(None), "a new entry");
    let mut b = Interface::new(base).expect("clock");
    b.base.if_alias = Some("renamed".into());
    assert!(!a.triggers_staleness(Some(b.clone())), "an alias is no topology");
    b.base.neighbor = Some(Neighbor::Host(9));
    assert!(a.triggers_staleness(Some(b.clone())));
    b.base.neighbor = None;
    b.base.ip_address_id = Some(2);
    assert!(a.triggers_staleness(Some(b.clone())));
    b.base.ip_address_id = None;
    b.base.host_id = 5;
    assert!(a.triggers_staleness(Some(b)));
}

#[test]
fn a_link_state_is_named_for_the_filter_panel() {
    assert_eq!(InterfaceLinkState::classify(None, true).name(), "Linked");
    assert_eq!(InterfaceLinkState::classify(None, false).name(), "Unlinked");
    assert_eq!(InterfaceLinkState::Linked.id(), InterfaceLinkState::Linked.name());
}

#[test]
fn a_default_row_has_nothing_read() {
    let b = InterfaceBase::default();
    assert_eq!((b.host_id, b.network_id), (0, 0));
    assert!(b.if_index.is_none() && b.if_descr.is_none() && b.neighbor.is_none());
    assert!(b.lldp_chassis_id.is_none() && b.cdp_device_id.is_none() && b.fdb_macs.is_none());
}
