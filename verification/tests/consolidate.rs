use scanopy::consolidate::oldest_first;
use scanopy::consolidate::{
    as_merge_source, consolidation_refusal, is_duplicate_service, lookup,
    merge_credential_assignments, merge_observation, names_equal, plan_ip_address_merge,
    plan_port_merge, remap_binding, BindingTarget, ConsolidationRefusal, CredentialAssignment,
    IdMapping, IpAddressRow, PortRow, ServiceKey, TransportProtocol,
};
use scanopy::hosts::{EntitySource, Host, HostBase, HostName};
use scanopy::net::IpAddress;

fn stored_host() -> Host {
    Host { id: 1, created_at: 10, updated_at: 10, last_seen_at: 10, base: HostBase::default() }
}

fn observation(hostname: Option<&str>, authoritative: bool) -> Host {
    Host {
        id: 2,
        created_at: 20,
        updated_at: 20,
        last_seen_at: 20,
        base: HostBase {
            hostname: hostname.map(|h| h.to_string()),
            hostname_authoritative: authoritative,
            sys_descr: Some("Linux 6.1".into()),
            source: EntitySource::Discovery,
            ..HostBase::default()
        },
    }
}

#[test]
fn an_observation_fills_a_blank_host_and_names_it_by_its_hostname() {
    let mut host = stored_host();
    let seen = observation(Some("  nas.lan  "), true);
    assert!(merge_observation(&mut host, &seen));
    assert_eq!(host.id, 1);
    assert_eq!(host.last_seen_at, 20);
    assert_eq!(host.base.hostname.as_deref(), Some("nas.lan"));
    assert_eq!(host.base.name, HostName::Hostname("nas.lan".into()));
    assert_eq!(host.base.sys_descr.as_deref(), Some("Linux 6.1"));
    assert_eq!(host.base.source, EntitySource::Discovery);
}

#[test]
fn observing_the_same_thing_twice_reports_nothing_the_second_time() {
    let mut host = stored_host();
    let seen = observation(Some("nas.lan"), true);
    assert!(merge_observation(&mut host, &seen));
    let after_first = host.clone();
    assert!(!merge_observation(&mut host, &seen));
    assert_eq!(host.base.hostname, after_first.base.hostname);
    assert_eq!(host.base.name, after_first.base.name);
}

#[test]
fn a_hostname_the_observation_does_not_own_leaves_the_stored_one() {
    let mut host = stored_host();
    host.base.hostname = Some("a.lan".into());
    host.base.name = HostName::Manual("Core".into());
    let seen = observation(Some("b.lan"), false);
    merge_observation(&mut host, &seen);
    assert_eq!(host.base.hostname.as_deref(), Some("a.lan"));
    assert_eq!(host.base.name, HostName::Manual("Core".into()));
}

#[test]
fn a_first_written_field_is_not_overwritten() {
    let mut host = stored_host();
    host.base.sys_descr = Some("FreeBSD".into());
    host.base.source = EntitySource::Discovery;
    host.base.hostname = Some("x.lan".into());
    host.base.name = HostName::Hostname("x.lan".into());
    let seen = observation(None, false);
    assert!(!merge_observation(&mut host, &seen), "nothing new: no update");
    assert_eq!(host.base.sys_descr.as_deref(), Some("FreeBSD"));
}

#[test]
fn a_merge_source_claims_no_hostname_authority() {
    let mut other = observation(Some("z.lan"), true);
    other.base.name = HostName::Integration("Z".into());
    let source = as_merge_source(&other);
    assert!(!source.base.hostname_authoritative);
    assert_eq!(source.base.hostname.as_deref(), Some("z.lan"));
    assert!(names_equal(&source.base.name, &HostName::Integration("Z".into())));
    assert!(!names_equal(&source.base.name, &HostName::Manual("Z".into())));
}

#[test]
fn consolidation_is_refused_into_itself_and_from_a_daemon_host() {
    assert_eq!(consolidation_refusal(5, 5, false), Some(ConsolidationRefusal::SameHost));
    assert_eq!(consolidation_refusal(5, 6, true), Some(ConsolidationRefusal::SourceHasDaemon));
    assert_eq!(consolidation_refusal(5, 6, false), None);
}

fn ip(id: u128, subnet: u128, last: u8, mac: Option<u64>) -> IpAddressRow {
    IpAddressRow { id, subnet_id: subnet, ip_address: IpAddress::V4(10, 0, 0, last), mac_address: mac }
}

#[test]
fn addresses_collide_by_ip_on_the_subnet_or_by_a_mac_each_host_has_once() {
    let dest = vec![ip(100, 1, 1, Some(0xaa)), ip(101, 1, 2, Some(0xbb)), ip(102, 1, 3, Some(0xbb))];
    let other = vec![
        ip(200, 1, 1, None),          // same IP, same subnet
        ip(201, 2, 9, Some(0xaa)),    // same MAC, once on each side
        ip(202, 2, 8, Some(0xbb)),    // a MAC the destination carries twice: VLANs, kept apart
        ip(203, 2, 1, None),          // same IP, another subnet
    ];
    let plan = plan_ip_address_merge(&dest, &other);
    assert_eq!(
        plan,
        vec![
            IdMapping { from: 200, to: 100, moved: false },
            IdMapping { from: 201, to: 100, moved: false },
            IdMapping { from: 202, to: 202, moved: true },
            IdMapping { from: 203, to: 203, moved: true },
        ]
    );
}

#[test]
fn ports_collide_by_number_and_protocol() {
    let dest = vec![
        PortRow { id: 1, number: 22, protocol: TransportProtocol::Tcp },
        PortRow { id: 2, number: 53, protocol: TransportProtocol::Udp },
    ];
    let other = vec![
        PortRow { id: 10, number: 22, protocol: TransportProtocol::Tcp },
        PortRow { id: 11, number: 22, protocol: TransportProtocol::Udp },
        PortRow { id: 12, number: 53, protocol: TransportProtocol::Udp },
    ];
    assert_eq!(
        plan_port_merge(&dest, &other),
        vec![
            IdMapping { from: 10, to: 1, moved: false },
            IdMapping { from: 11, to: 11, moved: true },
            IdMapping { from: 12, to: 2, moved: false },
        ]
    );
}

#[test]
fn bindings_follow_the_mappings() {
    let ips = vec![IdMapping { from: 200, to: 100, moved: false }, IdMapping { from: 201, to: 201, moved: true }];
    let ports = vec![IdMapping { from: 10, to: 1, moved: false }];
    assert_eq!(lookup(&ips, 200), Some(100));
    assert_eq!(lookup(&ips, 999), None);
    assert_eq!(
        remap_binding(BindingTarget::IpAddress { ip_address_id: 200 }, &ips, &ports),
        BindingTarget::IpAddress { ip_address_id: 100 }
    );
    assert_eq!(
        remap_binding(BindingTarget::IpAddress { ip_address_id: 7 }, &ips, &ports),
        BindingTarget::IpAddress { ip_address_id: 7 }
    );
    assert_eq!(
        remap_binding(BindingTarget::Port { port_id: 10, ip_address_id: Some(201) }, &ips, &ports),
        BindingTarget::Port { port_id: 1, ip_address_id: Some(201) }
    );
    assert_eq!(
        remap_binding(BindingTarget::Port { port_id: 11, ip_address_id: Some(7) }, &ips, &ports),
        BindingTarget::Port { port_id: 11, ip_address_id: None },
        "an address the mapping does not know falls back to every address"
    );
}

#[test]
fn a_service_the_destination_already_runs_is_a_duplicate() {
    let dest = vec![ServiceKey { name: "SSH".into(), definition_id: "ssh".into() }];
    assert!(is_duplicate_service(&dest, &ServiceKey { name: "SSH".into(), definition_id: "ssh".into() }));
    assert!(!is_duplicate_service(&dest, &ServiceKey { name: "SSH".into(), definition_id: "sftp".into() }));
    assert!(!is_duplicate_service(&[], &ServiceKey { name: "SSH".into(), definition_id: "ssh".into() }));
}

#[test]
fn credential_assignments_merge_with_the_broadest_scope_winning() {
    let dest = vec![
        CredentialAssignment { credential_id: 1, ip_address_ids: Some(vec![100]) },
        CredentialAssignment { credential_id: 2, ip_address_ids: None },
    ];
    let other = vec![
        CredentialAssignment { credential_id: 1, ip_address_ids: Some(vec![200, 201]) },
        CredentialAssignment { credential_id: 3, ip_address_ids: Some(vec![999]) },
        CredentialAssignment { credential_id: 4, ip_address_ids: None },
        CredentialAssignment { credential_id: 2, ip_address_ids: Some(vec![201]) },
    ];
    let map = vec![IdMapping { from: 200, to: 100, moved: false }, IdMapping { from: 201, to: 201, moved: true }];
    let (merged, migrated) = merge_credential_assignments(&dest, &other, &map);
    assert_eq!(
        merged,
        vec![
            CredentialAssignment { credential_id: 1, ip_address_ids: Some(vec![100, 201]) },
            CredentialAssignment { credential_id: 2, ip_address_ids: None },
            CredentialAssignment { credential_id: 4, ip_address_ids: None },
        ]
    );
    assert_eq!(migrated, 3, "the assignment whose every address was dropped is not migrated");
}

#[test]
fn hosts_are_matched_oldest_first_with_the_id_breaking_ties() {
    let at = |id: u128, created_at: i64| Host { id, created_at, updated_at: created_at, last_seen_at: created_at, base: HostBase::default() };
    let hosts = vec![at(9, 200), at(4, 100), at(7, 100), at(1, 300), at(2, 100)];
    let order: Vec<(i64, u128)> = oldest_first(hosts).iter().map(|h| (h.created_at, h.id)).collect();
    assert_eq!(order, vec![(100, 2), (100, 4), (100, 7), (200, 9), (300, 1)]);
    assert!(oldest_first(Vec::new()).is_empty());
}
