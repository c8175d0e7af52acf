use scanopy::hosts::ColumnValue;
use scanopy::controller::{ControllerIdentity, HostData, KnownSubnet, MappedClient};
use scanopy::hosts::{
    resolve_name_ladder, AttributeSource, Attributed, ClientProbe, Host, HostBase, HostName,
    HostNameLadderEntry, HostNameRung,
};
use scanopy::net::IpAddress;

fn example_host() -> Host {
    Host::new(HostBase {
        network_id: 1,
        ..Default::default()
    })
    .expect("the clock reads after 1970")
}

#[test]
fn a_winning_rung_leaves_the_rungs_below_it_readable() {
    let addresses = [IpAddress::V4(192, 168, 1, 100)];
    let mut host = example_host();
    host.base.name = HostName::manual("Core Switch".to_string());
    host.base.hostname = Some("switch.lan".to_string());
    host.base.sys_name = Some(Attributed::new(
        "core-sw-01".to_string(),
        AttributeSource::Probe(ClientProbe::Snmp),
    ));
    host.base.chassis_id = None;

    let ladder = host.name_ladder(&addresses);
    let entry = |rung| ladder.iter().find(|e| e.rung == rung).unwrap();

    assert_eq!(
        resolve_name_ladder(&ladder),
        Some(("Core Switch".to_string(), HostNameRung::Name))
    );
    assert_eq!(
        entry(HostNameRung::SysName).source,
        Some(AttributeSource::Probe(ClientProbe::Snmp)),
        "a rung that lost keeps its provenance"
    );
    assert_eq!(
        entry(HostNameRung::Hostname).source,
        None,
        "a hostname carries no provenance, and the ladder must not invent one"
    );
    assert_eq!(
        entry(HostNameRung::ChassisId),
        &HostNameLadderEntry {
            rung: HostNameRung::ChassisId,
            value: None,
            source: None,
        },
        "an absent value has no source"
    );
}

#[test]
fn an_unnamed_host_has_an_empty_name_rung() {
    let mut host = example_host();
    host.base.name = HostName::unnamed();

    let ladder = host.name_ladder(&[]);
    assert_eq!(ladder[0].rung, HostNameRung::Name);
    assert_eq!(ladder[0].value, None);
    assert_eq!(ladder[0].source, None);
}

#[test]
fn a_nameless_host_is_called_by_its_best_evidence() {
    let mut host = example_host();
    assert_eq!(host.display_name(&[]), None);
    assert_eq!(
        host.resolved_name(&[IpAddress::V4(10, 0, 0, 5)]),
        Some(("10.0.0.5".to_string(), HostNameRung::Address))
    );
    host.base.chassis_id = Some(Attributed::new(" 00:1a:2b:3c:4d:5e ".into(), AttributeSource::Unspecified));
    assert_eq!(
        host.resolved_name(&[IpAddress::V4(10, 0, 0, 5)]),
        Some(("00:1a:2b:3c:4d:5e".to_string(), HostNameRung::ChassisId))
    );
    host.base.hostname = Some("   ".into());
    assert_eq!(host.display_name(&[]).as_deref(), Some("00:1a:2b:3c:4d:5e"));
    host.base.hostname = Some("nas.lan".into());
    assert_eq!(host.display_name(&[]).as_deref(), Some("nas.lan"));
}

#[test]
fn a_higher_source_replaces_a_name_and_a_lower_one_does_not() {
    let mut base = HostBase::default();
    base.apply_name(HostName::Hostname("ipad-1a2b".into()));
    assert_eq!(base.name, HostName::Hostname("ipad-1a2b".into()));
    base.apply_name(HostName::Integration("Reception iPad".into()));
    assert_eq!(base.name, HostName::Integration("Reception iPad".into()));
    base.apply_name(HostName::Hostname("other".into()));
    assert_eq!(base.name, HostName::Integration("Reception iPad".into()));
    base.apply_name(HostName::Manual("Front desk".into()));
    base.apply_name(HostName::Integration("Reception iPad".into()));
    assert_eq!(base.name, HostName::Manual("Front desk".into()));
    base.apply_name(HostName::Manual("   ".into()));
    assert_eq!(base.name, HostName::Manual("Front desk".into()));
}

fn identity(name: Option<&str>, hostname: Option<&str>) -> ControllerIdentity {
    ControllerIdentity {
        name: name.map(str::to_string),
        hostname: hostname.map(str::to_string),
        chassis_id: None,
        manufacturer: None,
        model: None,
        serial_number: None,
        sys_descr: None,
    }
}

#[test]
fn controller_name_becomes_the_display_name() {
    let host = identity(Some("Core Switch"), None).into_host(7).expect("the clock reads after 1970");
    assert_eq!(host.base.name.text(), "Core Switch");
    assert_eq!(host.base.name.source(), AttributeSource::Integration);
    assert_eq!(
        host.base.sys_name.as_ref().map(|v| v.value.as_str()),
        Some("Core Switch")
    );
}

#[test]
fn a_controller_known_hostname_names_a_client_that_has_no_assigned_name() {
    let host = identity(None, Some("marys-laptop")).into_host(7).expect("the clock reads after 1970");
    assert_eq!(host.base.name.text(), "marys-laptop");
    assert_eq!(host.base.name.source(), AttributeSource::Hostname);
}

#[test]
fn an_assigned_name_outranks_a_hostname_for_the_same_device() {
    let host = identity(Some("Reception iPad"), Some("ipad-1a2b")).into_host(7).expect("the clock reads after 1970");
    assert_eq!(host.base.name.text(), "Reception iPad");
    assert_eq!(host.base.name.source(), AttributeSource::Integration);
    assert_eq!(host.base.hostname.as_deref(), Some("ipad-1a2b"));
}

#[test]
fn a_controller_reported_hostname_is_not_authoritative_for_the_field() {
    let host = identity(Some("Reception iPad"), Some("ipad-1a2b")).into_host(7).expect("the clock reads after 1970");
    assert!(!host.base.hostname_authoritative);
}

#[test]
fn enriching_a_scanned_host_marks_a_filled_in_hostname_as_reported() {
    let mut host_data = HostData::new(Host::new(HostBase::default()).expect("clock"));
    identity(None, Some("marys-laptop")).enrich(&mut host_data);

    assert_eq!(
        host_data.host.base.hostname.as_deref(),
        Some("marys-laptop")
    );
    assert!(!host_data.host.base.hostname_authoritative);
}

#[test]
fn enriching_leaves_a_resolved_hostname_and_its_standing_alone() {
    let mut host_data = HostData::new(
        Host::new(HostBase {
            hostname: Some("nas.lan.example.com".to_string()),
            ..Default::default()
        })
        .expect("clock"),
    );
    identity(None, Some("nas")).enrich(&mut host_data);

    assert_eq!(
        host_data.host.base.hostname.as_deref(),
        Some("nas.lan.example.com")
    );
    assert!(host_data.host.base.hostname_authoritative);
}

#[test]
fn a_blank_controller_name_leaves_the_host_unnamed_rather_than_naming_it_empty() {
    let host = identity(Some("   "), None).into_host(7).expect("the clock reads after 1970");
    assert_eq!(host.base.name, HostName::Unnamed);
    assert_eq!(host.base.sys_name, None);
}

#[test]
fn enriching_keeps_what_the_scan_read_and_ranks_the_name() {
    let mut base = HostBase::default();
    base.model = Some("GS724T".into());
    base.name = HostName::Manual("Lab switch".into());
    let mut host_data = HostData::new(Host::new(base).expect("clock"));
    let reported = ControllerIdentity {
        name: Some(" Core Switch ".into()),
        hostname: None,
        chassis_id: Some("00:1a:2b:3c:4d:5e".into()),
        manufacturer: Some("".into()),
        model: Some("USW-24".into()),
        serial_number: None,
        sys_descr: None,
    };
    reported.enrich(&mut host_data);
    let base = &host_data.host.base;
    assert_eq!(base.model.as_deref(), Some("GS724T"), "first write wins");
    assert_eq!(base.manufacturer, None, "a blank field is absence");
    assert_eq!(base.name, HostName::Manual("Lab switch".into()), "a person's name wins");
    assert_eq!(base.sys_name.as_ref().map(|v| v.value.as_str()), Some("Core Switch"));
    assert_eq!(base.chassis_id.as_ref().map(|v| v.value.as_str()), Some("00:1a:2b:3c:4d:5e"));
}

#[test]
fn an_update_keeps_what_creation_fixed() {
    let mut stored = example_host();
    stored.base.source = scanopy::hosts::EntitySource::Discovery;
    stored.created_at = 100;
    stored.updated_at = 200;
    let mut update = example_host();
    update.base.hostname = Some("new.lan".into());
    update.created_at = 900;
    update.updated_at = 900;
    update.preserve_immutable_fields(&stored);
    assert_eq!(update.base.source, scanopy::hosts::EntitySource::Discovery);
    assert_eq!((update.created_at, update.updated_at), (100, 200));
    assert_eq!(update.base.hostname.as_deref(), Some("new.lan"));
    assert!(stored.is_discovery_managed());
    assert!(!example_host().is_discovery_managed());
}

fn printer() -> ControllerIdentity {
    ControllerIdentity {
        name: Some("Printer".into()),
        hostname: None,
        chassis_id: None,
        manufacturer: None,
        model: None,
        serial_number: None,
        sys_descr: None,
    }
}

#[test]
fn a_client_is_placed_on_the_subnet_that_holds_its_address() {
    let subnets = [
        KnownSubnet { id: 1, network: IpAddress::V4(192, 168, 0, 0), prefix_len: 16 },
        KnownSubnet { id: 2, network: IpAddress::V4(10, 0, 0, 0), prefix_len: 8 },
        KnownSubnet { id: 3, network: IpAddress::V6(0xfe80, 0, 0, 0, 0, 0, 0, 0), prefix_len: 10 },
    ];
    let c = MappedClient::new(printer(), Some("  10.1.2.3 "), Some("00:1A:2B:3C:4D:5E"), 77, &subnets)
        .expect("placed");
    assert_eq!(c.ip, IpAddress::V4(10, 1, 2, 3));
    assert_eq!(c.ip_address.subnet_id, 2);
    assert_eq!(c.ip_address.network_id, 77);
    assert_eq!(c.ip_address.host_id, 0);
    assert_eq!(c.ip_address.mac_address.as_deref(), Some("00:1a:2b:3c:4d:5e"));
    assert_eq!(c.identity, printer());

    let v6 = MappedClient::new(printer(), Some("fe80::1"), Some("not a mac"), 77, &subnets).expect("placed");
    assert_eq!(v6.ip_address.subnet_id, 3);
    assert_eq!(v6.ip_address.mac_address, None);

    assert!(MappedClient::new(printer(), None, None, 77, &subnets).is_none(), "no address");
    assert!(MappedClient::new(printer(), Some("printer.lan"), None, 77, &subnets).is_none(), "unparseable");
    assert!(MappedClient::new(printer(), Some("172.16.0.1"), None, 77, &subnets).is_none(), "outside every subnet");
    assert!(MappedClient::new(printer(), Some("192.169.0.1"), None, 77, &subnets).is_none(), "a bit past the block");
    let everything = [KnownSubnet { id: 9, network: IpAddress::V4(1, 2, 3, 4), prefix_len: 0 }];
    assert_eq!(MappedClient::new(printer(), Some("8.8.8.8"), None, 1, &everything).map(|c| c.ip_address.subnet_id), Some(9));
    assert!(MappedClient::new(printer(), Some("::1"), None, 1, &everything).is_none(), "a v4 block holds no v6 address");
}

#[test]
fn the_clock_reads_after_the_epoch() {
    let now = scanopy::clock::now_micros().expect("the clock reads after 1970");
    assert!(now > 1_500_000_000_000_000);
    let host = Host::stamped(HostBase::default(), 5, 77);
    assert_eq!((host.id, host.created_at, host.updated_at, host.last_seen_at), (5, 77, 77, 77));
}

#[test]
fn a_blank_controller_identity_leaves_the_host_as_it_was() {
    let mut base = HostBase::default();
    base.sys_object_id = Some("1.3.6.1.4.1.9".into());
    base.hostname = Some("sw.lan".into());
    base.source = scanopy::hosts::EntitySource::Discovery;
    let mut host_data = HostData::new(Host::stamped(base, 3, 10));
    let before = format!("{:?}", host_data.host);
    let blank = ControllerIdentity {
        name: Some("  ".into()),
        hostname: Some("".into()),
        chassis_id: Some(" ".into()),
        manufacturer: None,
        model: Some("\t".into()),
        serial_number: None,
        sys_descr: None,
    };
    blank.enrich(&mut host_data);
    assert_eq!(format!("{:?}", host_data.host), before);
}

#[test]
fn a_field_the_host_holds_keeps_its_source() {
    let mut base = HostBase::default();
    base.sys_name = Some(Attributed::new("sw1".into(), AttributeSource::Manual));
    let mut host_data = HostData::new(Host::stamped(base, 3, 10));
    identity(Some("Switch One"), None).enrich(&mut host_data);
    let sys_name = host_data.host.base.sys_name.as_ref().expect("kept");
    assert_eq!(sys_name.value, "sw1");
    assert_eq!(sys_name.source, AttributeSource::Manual);
}

#[test]
fn a_clock_reading_is_kept_exactly_when_it_fits() {
    assert_eq!(scanopy::clock::micros_reading(0), Some(0));
    assert_eq!(scanopy::clock::micros_reading(1_700_000_000_000_000), Some(1_700_000_000_000_000));
    assert_eq!(scanopy::clock::micros_reading(i64::MAX as u128), Some(i64::MAX));
    assert_eq!(scanopy::clock::micros_reading(i64::MAX as u128 + 1), None);
    assert_eq!(scanopy::clock::micros_reading(u128::MAX), None);
}

#[test]
fn a_controller_host_stamped_at_a_given_time_carries_that_time_and_id() {
    let host = identity(Some("Core Switch"), Some("core-sw")).into_host_at(7, 42, 1_700_000_000_000_000);
    assert_eq!(host.id, 42);
    assert_eq!(host.created_at, 1_700_000_000_000_000);
    assert_eq!(host.updated_at, 1_700_000_000_000_000);
    assert_eq!(host.last_seen_at, 1_700_000_000_000_000);
    assert_eq!(host.base.network_id, 7);
    assert_eq!(host.base.name.text(), "Core Switch");
    assert_eq!(host.base.name.source(), AttributeSource::Integration);
    assert_eq!(host.base.hostname.as_deref(), Some("core-sw"));
    let blank = identity(Some("   "), None).into_host_at(7, 43, 0);
    assert_eq!(blank.base.name, scanopy::hosts::HostName::Unnamed);
    assert!(blank.base.sys_name.is_none());
}

#[test]
fn a_host_row_names_each_column_beside_its_value() {
    let mut host = identity(Some("Core Switch"), Some("core-sw")).into_host_at(7, 42, 1_000);
    host.base.description = Some("rack 3".to_string());
    let (columns, values) = host.to_params();
    assert_eq!(columns.len(), values.len());
    assert_eq!(
        columns,
        vec![
            "id", "created_at", "updated_at", "name", "name_source", "description", "network_id",
            "source", "hostname", "hidden", "sys_descr", "sys_object_id", "sys_location",
            "sys_contact", "management_url", "chassis_id", "sys_name", "manufacturer", "model",
            "serial_number", "last_seen_at",
        ]
    );
    assert_eq!(values[0], ColumnValue::Uuid(42));
    assert_eq!(values[1], ColumnValue::Timestamp(1_000));
    assert_eq!(values[3], ColumnValue::Text("Core Switch".to_string()));
    assert_eq!(values[4], ColumnValue::NameSource(AttributeSource::Integration));
    assert_eq!(values[5], ColumnValue::OptionalText(Some("rack 3".to_string())));
    assert_eq!(values[6], ColumnValue::Uuid(7));
    assert_eq!(values[8], ColumnValue::OptionalText(Some("core-sw".to_string())));
    assert_eq!(values[9], ColumnValue::Bool(false));
    assert_eq!(values[11], ColumnValue::OptionalText(None));
    assert_eq!(values[16], ColumnValue::OptionalText(Some("Core Switch".to_string())));
    assert_eq!(values[20], ColumnValue::Timestamp(1_000));
}
