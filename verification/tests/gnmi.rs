use scanopy::gnmi::{
    absorb_notification, collection_plan, collection_to_interfaces, dn_lldp, flatten_json_value,
    flatten_update, JsonValue,
    get_if_type_number, if_type_from_identity, normalised_names, openconfig_lldp, profile_for,
    scalar_to_string, speed_from_identity, Collection, GnmiIntegration, Leaf, LldpModel, LldpModelProfile,
    Notification, NeighborLeaves, Path, PathElem, Subtree, TypedValue, TypedValueKind, Update,
};
use scanopy::net::parse_ip;
use scanopy::interfaces::{IfAdminStatus, IfOperStatus, Interface, InterfaceBase};
use scanopy::lldp::{LldpChassisId, LldpPortId};

const IF_TYPE_OTHER: i32 = 1;

/// gnmic notation: `origin:` prefix only when there is one.
fn render_path(path: &Path) -> String {
    let elems = path
        .elem
        .iter()
        .map(|e| {
            let keys: String = e.key.iter().map(|(k, v)| format!("[{k}={v}]")).collect();
            format!("{}{keys}", e.name)
        })
        .collect::<Vec<_>>()
        .join("/");
    match path.origin.as_str() {
        "" => elems,
        origin => format!("{origin}:{elems}"),
    }
}

/// Split on `/` outside brackets only: key values carry slashes (`[name=ge10-0/0/0]`).
fn split_elems(path: &str) -> Vec<&str> {
    let mut out = Vec::new();
    let (mut start, mut depth) = (0, 0);
    for (i, c) in path.char_indices() {
        match c {
            '[' => depth += 1,
            ']' => depth -= 1,
            '/' if depth == 0 => {
                out.push(&path[start..i]);
                start = i + 1;
            }
            _ => {}
        }
    }
    out.push(&path[start..]);
    out.into_iter().filter(|e| !e.is_empty()).collect()
}

fn parse_path(path: &str) -> Path {
    Path {
        origin: String::new(),
        elem: split_elems(path)
            .into_iter()
            .map(|e| match e.split_once('[') {
                Some((name, key)) => {
                    let (k, v) = key.trim_end_matches(']').split_once('=').unwrap();
                    PathElem { name: name.into(), key: vec![(k.to_string(), v.to_string())] }
                }
                None => PathElem { name: e.into(), key: vec![] },
            })
            .collect(),
    }
}

fn typed(value: &str) -> TypedValue {
    // Numbers travel as uint leaves on the wire (ifindex, mtu); everything else is text.
    let v = match value.parse::<u64>() {
        Ok(u) => TypedValueKind::UintVal(u),
        Err(_) => TypedValueKind::StringVal(value.to_string()),
    };
    TypedValue { value: Some(v) }
}

fn update(path: &str, val: TypedValue) -> Update {
    Update { path: Some(parse_path(path)), val: Some(val) }
}

/// One notification per non-blank script line, `path = value`.
fn script_to_notifications(script: &str) -> Vec<Notification> {
    script
        .lines()
        .map(str::trim)
        .filter(|l| !l.is_empty())
        .map(|line| {
            let (path, value) = line.split_once(" = ").unwrap_or((line, ""));
            Notification { prefix: None, update: vec![update(path.trim(), typed(value.trim()))] }
        })
        .collect()
}

/// What the collector does with a device that serves `served` (subtree path to script) and
/// advertises `models`: the plan's subtrees read in order, each answer absorbed. `Err` is the
/// refused required subtree.
fn collect_scripted(served: &[(Subtree, &str)], models: &[&str]) -> Result<Collection, String> {
    let models: Vec<String> = models.iter().map(|m| m.to_string()).collect();
    let (model, _profile, subtrees) = collection_plan(&models);
    let mut coll = Collection::new(model);
    for subtree in subtrees {
        let key = render_path(&subtree.path());
        match served.iter().find(|(s, _)| render_path(&s.path()) == key) {
            Some((_, script)) => {
                for n in script_to_notifications(script) {
                    absorb_notification(&mut coll, &n);
                }
            }
            None => {
                if let Some(error) = subtree.refusal_error(&format!("Requested Path '{key}' is not supported")) {
                    return Err(error);
                }
            }
        }
    }
    Ok(coll)
}

fn rows_of(coll: &Collection) -> Vec<Interface> {
    collection_to_interfaces(coll, 7, 9, 1_700_000_000_000_000)
}

fn row<'a>(rows: &'a [Interface], name: &str) -> &'a InterfaceBase {
    &rows
        .iter()
        .find(|r| r.base.if_name.as_deref() == Some(name))
        .unwrap_or_else(|| panic!("no row {name}"))
        .base
}

fn selected(models: &[&str]) -> Option<&'static str> {
    let models: Vec<String> = models.iter().map(|m| (*m).to_string()).collect();
    LldpModelProfile::select(&models).map(|p| p.module)
}

fn check_profiles_are_selected() {
    assert_eq!(selected(&[]), None);
    assert_eq!(selected(&["openconfig-interfaces"]), None);
    assert_eq!(selected(&["dn-lldp"]), Some("dn-lldp"));
    assert_eq!(selected(&["openconfig-lldp"]), Some("openconfig-lldp"));
    // Module names arrive qualified from some devices; the comparison is unqualified.
    assert_eq!(selected(&["openconfig:openconfig-lldp"]), Some("openconfig-lldp"));
    // Both advertised: openconfig wins.
    assert_eq!(selected(&["dn-lldp", "openconfig-lldp"]), Some("openconfig-lldp"));
}

#[test]
fn profiles_are_selected_by_the_advertised_module_name() {
    check_profiles_are_selected();
}

#[test]
fn subtree_paths_render_with_their_origin() {
    let vendor = Subtree { origin: "srl_nokia", elems: vec!["system", "lldp"] };
    assert_eq!(render_path(&vendor.path()), "srl_nokia:system/lldp");
    assert_eq!(
        render_path(&Subtree::interface_state().path()),
        "interfaces/interface[name=*]/state",
        "the default tree is still written without an origin prefix"
    );
    assert_eq!(render_path(&openconfig_lldp().subtrees[0].path()), "lldp/state");
    assert_eq!(render_path(&dn_lldp().subtrees[0].path()), "drivenets-top/protocols/lldp");
}

#[test]
fn normalisation_folds_the_native_tree_and_leaves_everything_else_alone() {
    let leaf = |path: &str| Leaf { elems: parse_path(path).elem, value: String::new() };
    let names = |profile: &LldpModelProfile, path: &str| normalised_names(profile, &leaf(path)).join("/");
    let dn = dn_lldp();
    let oc = openconfig_lldp();

    // DriveNets: vendor root dropped, oper-items read as state
    assert_eq!(
        names(
            &dn,
            "drivenets-top/protocols/lldp/interfaces/interface[name=ge100-0/0/1]/neighbors/neighbor[id=0]/oper-items/system-name"
        ),
        "lldp/interfaces/interface/neighbors/neighbor/state/system-name"
    );
    assert_eq!(names(&dn, "drivenets-top/protocols/lldp/oper-items/chassis-id"), "lldp/state/chassis-id");
    // The same device's `/interfaces` leaves, outside the profile's LLDP root: untouched.
    assert_eq!(
        names(&dn, "interfaces/interface[name=et1]/oper-items/oper-status"),
        "interfaces/interface/oper-items/oper-status",
        "the rename belongs to the profile's LLDP tree, not to every path from the device"
    );
    // Vendor root but no lldp element: left alone.
    assert_eq!(
        names(&dn, "drivenets-top/interfaces/interface[name=ge100-0/0/1]/oper-items/name"),
        "drivenets-top/interfaces/interface/oper-items/name"
    );
    // openconfig is the identity.
    assert_eq!(
        names(&oc, "interfaces/interface[name=et1]/state/oper-status"),
        "interfaces/interface/state/oper-status"
    );
    assert_eq!(
        names(&oc, "lldp/interfaces/interface[name=swp1]/neighbors/neighbor[id=1]/state/port-id"),
        "lldp/interfaces/interface/neighbors/neighbor/state/port-id"
    );
}

/// The blob of the JSON_IETF test: one interface, its ethernet state, and a subinterface
/// carrying its own ifindex.
const ETHERNET1_BLOB: &str = r#"{
    "openconfig-interfaces:interface": [{
        "name": "Ethernet1",
        "state": {
            "ifindex": 1,
            "type": "iana-if-type:ethernetCsmacd",
            "admin-status": "UP",
            "oper-status": "LOWER_LAYER_DOWN",
            "description": "uplink"
        },
        "openconfig-if-ethernet:ethernet": {
            "state": {
                "mac-address": "c0:c9:89:ef:20:d2",
                "port-speed": "openconfig-if-ethernet:SPEED_10GB"
            }
        },
        "subinterfaces": {
            "subinterface": [{ "index": 0, "state": { "ifindex": 5 } }]
        }
    }]
}"#;

fn check_json_ietf_blob() {
    let n = Notification {
        prefix: None,
        update: vec![update(
            "interfaces",
            TypedValue { value: Some(TypedValueKind::JsonIetfVal(ETHERNET1_BLOB.as_bytes().to_vec())) },
        )],
    };
    let mut coll = Collection::new(LldpModel::NoneAdvertised);
    assert!(absorb_notification(&mut coll, &n));
    let rows = rows_of(&coll);
    let eth1 = row(&rows, "Ethernet1");
    assert_eq!(eth1.if_index, Some(1), "the interface's ifindex, not the subinterface's");
    assert_eq!(eth1.if_alias.as_deref(), Some("uplink"));
    assert_eq!(eth1.oper_status, Some(IfOperStatus::LowerLayerDown));
    assert_eq!(eth1.admin_status, Some(IfAdminStatus::Up));
    assert_eq!(eth1.if_type, Some(6));
    assert_eq!(eth1.mac_address.as_deref(), Some("c0:c9:89:ef:20:d2"));
    assert_eq!(eth1.speed_bps, Some(10_000_000_000));
}

#[test]
fn mod_json_ietf_blob_flattens_to_the_same_leaves() {
    check_json_ietf_blob();
}

#[test]
fn tests_json_ietf_blob_flattens_to_the_same_leaves() {
    check_json_ietf_blob();
}

fn check_explicit_chassis_type() {
    let n = Notification {
        prefix: Some(parse_path("lldp")),
        update: [
            ("interfaces/interface[name=eth0]/neighbors/neighbor[id=1]/state/chassis-id", "C0:C9:89:EF:20:D2"),
            (
                "interfaces/interface[name=eth0]/neighbors/neighbor[id=1]/state/chassis-id-type",
                "openconfig-lldp-types:MAC_ADDRESS",
            ),
            ("interfaces/interface[name=eth0]/neighbors/neighbor[id=1]/state/port-id", "Gi1/0/1"),
            (
                "interfaces/interface[name=eth0]/neighbors/neighbor[id=1]/state/port-id-type",
                "openconfig-lldp-types:INTERFACE_NAME",
            ),
            ("state/chassis-id", "00:11:22:33:44:55"),
            ("state/chassis-id-type", "openconfig-lldp-types:MAC_ADDRESS"),
        ]
        .into_iter()
        .map(|(p, v)| update(p, typed(v)))
        .collect(),
    };
    let mut coll = Collection::new(LldpModel::NoneAdvertised);
    absorb_notification(&mut coll, &n);
    // The row itself comes from `/interfaces`; the neighbour only decorates it.
    absorb_notification(
        &mut coll,
        &Notification {
            prefix: None,
            update: vec![update("interfaces/interface[name=eth0]/state/ifindex", typed("3"))],
        },
    );
    assert_eq!(coll.local_chassis_id.as_deref(), Some("00:11:22:33:44:55"));
    let rows = rows_of(&coll);
    let eth0 = row(&rows, "eth0");
    assert_eq!(eth0.if_index, Some(3));
    assert_eq!(eth0.lldp_chassis_id, Some(LldpChassisId::MacAddress("c0:c9:89:ef:20:d2".into())));
    assert_eq!(eth0.lldp_port_id, Some(LldpPortId::InterfaceName("Gi1/0/1".into())));
}

#[test]
fn mod_explicit_chassis_type_maps_and_prefix_is_honoured() {
    check_explicit_chassis_type();
}

#[test]
fn tests_explicit_chassis_type_maps_and_prefix_is_honoured() {
    check_explicit_chassis_type();
}

fn check_reverse_map() {
    assert_eq!(get_if_type_number("ethernetCsmacd"), Some(6));
    assert_eq!(get_if_type_number("l2vlan"), Some(135));
    assert_eq!(get_if_type_number("notAnIfType"), None);
}

#[test]
fn mod_generated_reverse_map_matches_the_registry() {
    check_reverse_map();
}

#[test]
fn tests_generated_reverse_map_matches_the_registry() {
    check_reverse_map();
}

fn check_identities() {
    assert_eq!(if_type_from_identity("ethernetCsmacd"), 6);
    assert_eq!(if_type_from_identity("iana-if-type:ieee8023adLag"), 161);
    assert_eq!(if_type_from_identity("ianaift:propVirtual"), 53);
    assert_eq!(if_type_from_identity("iana-if-type:l2vlan"), 135);
    assert_eq!(if_type_from_identity("iana-if-type:l3ipvlan"), 136);
    // Registered, just not one the constants name: the table covers it.
    assert_eq!(if_type_from_identity("iana-if-type:atm"), 37);
    assert_eq!(if_type_from_identity("iana-if-type:noSuchType"), IF_TYPE_OTHER);
    assert_eq!(speed_from_identity("SPEED_100MB"), Some(100_000_000));
    assert_eq!(speed_from_identity("openconfig-if-ethernet:SPEED_2500MB"), Some(2_500_000_000));
    assert_eq!(speed_from_identity("SPEED_400GB"), Some(400_000_000_000));
    assert_eq!(speed_from_identity("SPEED_UNKNOWN"), None);
}

#[test]
fn mod_identities_map_by_iana_name_whatever_the_prefix() {
    check_identities();
}

#[test]
fn tests_identities_map_by_iana_name_whatever_the_prefix() {
    check_identities();
}

#[test]
fn unparseable_json_update_is_reported() {
    let n = Notification {
        prefix: None,
        update: vec![update(
            "lldp",
            TypedValue { value: Some(TypedValueKind::JsonIetfVal(b"{not json".to_vec())) },
        )],
    };
    assert!(!absorb_notification(&mut Collection::new(LldpModel::NoneAdvertised), &n));
}

const DNOS_INTERFACE_STATE: &str = "
    interfaces/interface[name=ge10-0/0/0]/state/admin-status = UP
    interfaces/interface[name=ge10-0/0/0]/state/ifindex = 1
    interfaces/interface[name=ge10-0/0/0]/state/mtu = 1514
    interfaces/interface[name=ge10-0/0/0]/state/name = ge10-0/0/0
    interfaces/interface[name=ge10-0/0/0]/state/oper-status = DOWN
    interfaces/interface[name=ge10-0/0/0]/state/type = ethernetCsmacd
    interfaces/interface[name=bundle-10]/state/admin-status = UP
    interfaces/interface[name=bundle-10]/state/ifindex = 12289
    interfaces/interface[name=bundle-10]/state/oper-status = DOWN
    interfaces/interface[name=bundle-10]/state/type = ieee8023adLag
    interfaces/interface[name=bundle-10.4090]/state/admin-status = UP
    interfaces/interface[name=bundle-10.4090]/state/ifindex = 13313
    interfaces/interface[name=bundle-10.4090]/state/oper-status = DOWN
    interfaces/interface[name=bundle-10.4090]/state/type = l2vlan
    interfaces/interface[name=irb100]/state/admin-status = UP
    interfaces/interface[name=irb100]/state/ifindex = 41985
    interfaces/interface[name=irb100]/state/oper-status = DOWN
    interfaces/interface[name=irb100]/state/type = irb
    interfaces/interface[name=lo0]/state/admin-status = UP
    interfaces/interface[name=lo0]/state/description = loopback
    interfaces/interface[name=lo0]/state/ifindex = 8193
    interfaces/interface[name=lo0]/state/oper-status = UP
    interfaces/interface[name=lo0]/state/type = softwareLoopback
    interfaces/interface[name=mgmt-ncc-0/0]/state/admin-status = UP
    interfaces/interface[name=mgmt-ncc-0/0]/state/ifindex = 46333
    interfaces/interface[name=mgmt-ncc-0/0]/state/oper-status = UP
    interfaces/interface[name=mgmt-ncc-0/0]/state/type = mgmt-ncx-member
";

fn check_dnos() {
    let coll = collect_scripted(&[(Subtree::interface_state(), DNOS_INTERFACE_STATE)], &[]).expect("collection");
    let rows = rows_of(&coll);
    assert_eq!(rows.len(), 6);
    assert!(rows.iter().all(|r| r.base.lldp_chassis_id.is_none()));
    let ge = row(&rows, "ge10-0/0/0");
    assert_eq!(ge.if_index, Some(1));
    assert_eq!(ge.oper_status, Some(IfOperStatus::Down));
    assert_eq!(row(&rows, "bundle-10").if_type, Some(161), "ieee8023adLag");
    assert_eq!(row(&rows, "bundle-10.4090").if_type, Some(135), "l2vlan");
    assert_eq!(row(&rows, "irb100").if_type, Some(IF_TYPE_OTHER));
    assert_eq!(row(&rows, "mgmt-ncc-0/0").if_type, Some(IF_TYPE_OTHER));
    assert_eq!(row(&rows, "lo0").if_alias.as_deref(), Some("loopback"));
}

#[test]
fn mod_dnos_interfaces_without_any_lldp_model() {
    check_dnos();
}

#[test]
fn tests_dnos_interfaces_without_any_lldp_model() {
    check_dnos();
}

#[test]
fn an_oper_items_container_does_not_clobber_openconfig_state() {
    const MIXED: &str = "
        interfaces/interface[name=et1]/state/oper-status = UP
        interfaces/interface[name=et1]/state/ifindex = 1
        interfaces/interface[name=et1]/oper-items/oper-status = DOWN
        interfaces/interface[name=et1]/oper-items/description = clobbered
    ";
    let coll = collect_scripted(&[(Subtree::interface_state(), MIXED)], &["dn-lldp"]).expect("collection");
    assert_eq!(coll.lldp_model, LldpModel::Advertised("dn-lldp"));
    let et1 = coll.interfaces.iter().find(|e| e.name == "et1").expect("et1");
    assert_eq!(et1.leaves.oper_status.as_deref(), Some("UP"));
    assert_eq!(et1.leaves.description, None);
}

const ARCOS_INTERFACE_STATE: &str = "
    interfaces/interface[name=swp1]/state/counters/out-octets = 2487600
    interfaces/interface[name=swp1]/state/type = ethernetCsmacd
    interfaces/interface[name=swp1]/state/ifindex = 1001
    interfaces/interface[name=swp1]/state/oper-status = UP
    interfaces/interface[name=swp1]/state/admin-status = UP
    interfaces/interface[name=swp1]/state/description =
    interfaces/interface[name=swp1]/state/mtu = 1526
    interfaces/interface[name=swp1]/state/name = swp1
    interfaces/interface[name=swp46]/state/admin-status = UP
    interfaces/interface[name=swp46]/state/description = netlab-mgmt0 : Ethernet48
    interfaces/interface[name=swp46]/state/ifindex = 1046
    interfaces/interface[name=swp46]/state/oper-status = UP
    interfaces/interface[name=swp46]/state/type = ethernetCsmacd
    interfaces/interface[name=swp53]/state/admin-status = UP
    interfaces/interface[name=swp53]/state/description =
    interfaces/interface[name=swp53]/state/ifindex = 1053
    interfaces/interface[name=swp53]/state/oper-status = UP
    interfaces/interface[name=swp53]/state/type = ethernetCsmacd
    interfaces/interface[name=swp55]/state/admin-status = UP
    interfaces/interface[name=swp55]/state/description = PROTECT: netlab-spine2 : swp32 : FOR UNDERLAY
    interfaces/interface[name=swp55]/state/ifindex = 1055
    interfaces/interface[name=swp55]/state/oper-status = UP
    interfaces/interface[name=swp55]/state/type = ethernetCsmacd
    interfaces/interface[name=loopback0]/state/admin-status = UP
    interfaces/interface[name=loopback0]/state/ifindex = 20005
    interfaces/interface[name=loopback0]/state/oper-status = UP
    interfaces/interface[name=loopback0]/state/type = softwareLoopback
    interfaces/interface[name=vlan1000]/state/admin-status = UP
    interfaces/interface[name=vlan1000]/state/type = l3ipvlan
    interfaces/interface[name=vlan1000]/state/ifindex = 20031
    interfaces/interface[name=vlan1000]/state/oper-status = UP
    interfaces/interface[name=ma1]/state/ifindex = 4
    interfaces/interface[name=ma1]/state/type = ethernetCsmacd
    interfaces/interface[name=ma1]/state/admin-status = UP
    interfaces/interface[name=ma1]/state/oper-status = UP
";

const ARCOS_ETHERNET_STATE: &str = "
    interfaces/interface[name=swp1]/ethernet/state/effective-speed = 25000
    interfaces/interface[name=swp53]/ethernet/state/effective-speed = 100000
    interfaces/interface[name=ma1]/ethernet/state/effective-speed = 1000
";

const ARCOS_LLDP_NEIGHBORS: &str = "
    lldp/interfaces/interface[name=swp1]/name = swp1
    lldp/interfaces/interface[name=swp1]/neighbors/neighbor[id=5-34:80:0d:44:45:05]/id = 5-34:80:0d:44:45:05
    lldp/interfaces/interface[name=swp1]/neighbors/neighbor[id=5-34:80:0d:44:45:05]/state/id = 5-34:80:0d:44:45:05
    lldp/interfaces/interface[name=swp1]/neighbors/neighbor[id=5-34:80:0d:44:45:05]/state/port-id = 34:80:0d:44:45:05
    lldp/interfaces/interface[name=swp1]/neighbors/neighbor[id=7-34:80:0d:44:44:f5]/id = 7-34:80:0d:44:44:f5
    lldp/interfaces/interface[name=swp1]/neighbors/neighbor[id=7-34:80:0d:44:44:f5]/state/id = 7-34:80:0d:44:44:f5
    lldp/interfaces/interface[name=swp1]/neighbors/neighbor[id=7-34:80:0d:44:44:f5]/state/management-address = 10.22.64.101
    lldp/interfaces/interface[name=swp1]/neighbors/neighbor[id=7-34:80:0d:44:44:f5]/state/port-id = 34:80:0d:44:44:f5
    lldp/interfaces/interface[name=swp1]/neighbors/neighbor[id=7-34:80:0d:44:44:f5]/state/system-description = Ubuntu 26.04 LTS Linux 7.0.0-30-generic #30-Ubuntu SMP PREEMPT_DYNAMIC Fri Jul 31 18:22:54 UTC 2026 x86_64
    lldp/interfaces/interface[name=swp1]/neighbors/neighbor[id=7-34:80:0d:44:44:f5]/state/system-name = netlab-server
    lldp/interfaces/interface[name=swp46]/name = swp46
    lldp/interfaces/interface[name=swp46]/neighbors/neighbor[id=1-Ethernet48]/state/management-address = fe80::deda:4dff:fe86:f4ea
    lldp/interfaces/interface[name=swp46]/neighbors/neighbor[id=1-Ethernet48]/state/port-id = Ethernet48
    lldp/interfaces/interface[name=swp46]/neighbors/neighbor[id=1-Ethernet48]/state/system-description = SONiC Software Version: SONiC-OS-cls_sonic_plus_4.0.0-de0fd7e72 - HwSku: Celestica ES1010-48CP - Distribution: Debian 11.11 - Kernel: 5.10.0-32-2-amd64
    lldp/interfaces/interface[name=swp46]/neighbors/neighbor[id=1-Ethernet48]/state/system-name = netlab-mgmt0
    lldp/interfaces/interface[name=swp53]/neighbors/neighbor[id=6-98:03:9b:7f:6f:58]/state/port-id = 98:03:9b:7f:6f:58
    lldp/interfaces/interface[name=swp53]/neighbors/neighbor[id=7-98:03:9b:7f:6f:58]/state/management-address = 10.22.64.101
    lldp/interfaces/interface[name=swp53]/neighbors/neighbor[id=7-98:03:9b:7f:6f:58]/state/port-id = 98:03:9b:7f:6f:58
    lldp/interfaces/interface[name=swp53]/neighbors/neighbor[id=7-98:03:9b:7f:6f:58]/state/system-name = netlab-server
    lldp/interfaces/interface[name=swp55]/neighbors/neighbor[id=3-swp32]/state/management-address = 10.22.64.103
    lldp/interfaces/interface[name=swp55]/neighbors/neighbor[id=3-swp32]/state/port-id = swp32
    lldp/interfaces/interface[name=swp55]/neighbors/neighbor[id=3-swp32]/state/system-description = Arrcus Operating System (ArcOS)
    lldp/interfaces/interface[name=swp55]/neighbors/neighbor[id=3-swp32]/state/system-name = netlab-spine2
";

const CDNOS_INTERFACE_STATE: &str = "
    interfaces/interface[name=ge100-0/0/1]/state/ifindex = 2
    interfaces/interface[name=ge100-0/0/1]/state/type = ethernetCsmacd
    interfaces/interface[name=ge100-0/0/1]/state/admin-status = UP
    interfaces/interface[name=ge100-0/0/1]/state/oper-status = UP
    interfaces/interface[name=ge100-0/0/1]/state/description = edge-dnos -> core2
    interfaces/interface[name=ge100-0/0/2]/state/ifindex = 3
    interfaces/interface[name=ge100-0/0/2]/state/type = ethernetCsmacd
    interfaces/interface[name=ge100-0/0/2]/state/admin-status = UP
    interfaces/interface[name=ge100-0/0/2]/state/oper-status = UP
    interfaces/interface[name=ge100-0/0/2]/state/description = edge-dnos -> [mcast-src,mcast-rcv]
";

const DNOS_LLDP_NATIVE: &str = "
    drivenets-top/protocols/lldp/oper-items/chassis-id = 84:40:76:56:95:25
    drivenets-top/protocols/lldp/oper-items/chassis-id-type = MAC_ADDRESS
    drivenets-top/protocols/lldp/oper-items/system-name = edge-dnos
    drivenets-top/protocols/lldp/interfaces/interface[name=ge100-0/0/1]/name = ge100-0/0/1
    drivenets-top/protocols/lldp/interfaces/interface[name=ge100-0/0/1]/neighbors/neighbor[id=0]/oper-items/chassis-id = aa:c1:ab:1a:bf:7a
    drivenets-top/protocols/lldp/interfaces/interface[name=ge100-0/0/1]/neighbors/neighbor[id=0]/oper-items/chassis-id-type = MAC_ADDRESS
    drivenets-top/protocols/lldp/interfaces/interface[name=ge100-0/0/1]/neighbors/neighbor[id=0]/oper-items/port-id = eth3
    drivenets-top/protocols/lldp/interfaces/interface[name=ge100-0/0/1]/neighbors/neighbor[id=0]/oper-items/port-id-type = INTERFACE_NAME
    drivenets-top/protocols/lldp/interfaces/interface[name=ge100-0/0/1]/neighbors/neighbor[id=0]/oper-items/system-name = core2
    drivenets-top/protocols/lldp/interfaces/interface[name=ge100-0/0/1]/oper-items/counters/lldp-in-pkts = 1239
    drivenets-top/protocols/lldp/interfaces/interface[name=ge100-0/0/2]/neighbors/neighbor[id=0]/oper-items/chassis-id = aa:c1:ab:1f:3b:e8
    drivenets-top/protocols/lldp/interfaces/interface[name=ge100-0/0/2]/neighbors/neighbor[id=0]/oper-items/port-id = eth1
    drivenets-top/protocols/lldp/interfaces/interface[name=ge100-0/0/2]/neighbors/neighbor[id=0]/oper-items/system-name = mcast-src
";

fn cdnos() -> Vec<(Subtree, &'static str)> {
    vec![(Subtree::interface_state(), CDNOS_INTERFACE_STATE), (dn_lldp().subtrees[0].clone(), DNOS_LLDP_NATIVE)]
}

fn arcos() -> Vec<(Subtree, &'static str)> {
    // `/lldp/state` is refused: no script for it.
    vec![
        (Subtree::interface_state(), ARCOS_INTERFACE_STATE),
        (Subtree::ethernet_state(), ARCOS_ETHERNET_STATE),
        (openconfig_lldp().subtrees[1].clone(), ARCOS_LLDP_NEIGHBORS),
    ]
}

fn neighbor<'a>(coll: &'a Collection, interface: &str, id: &str) -> &'a NeighborLeaves {
    &coll
        .neighbors
        .iter()
        .find(|n| n.interface == interface && n.id == id)
        .unwrap_or_else(|| panic!("no neighbour {interface}/{id}"))
        .leaves
}

#[test]
fn native_lldp_is_collected_when_only_dn_lldp_is_advertised() {
    let coll = collect_scripted(&cdnos(), &["openconfig-interfaces", "dn-lldp", "dn-interfaces"]).expect("collection");
    assert_eq!(coll.interfaces.len(), 2, "interfaces still collected");
    assert_eq!(coll.lldp_model, LldpModel::Advertised("dn-lldp"));
    assert_eq!(
        coll.local_chassis_id.as_deref(),
        Some("84:40:76:56:95:25"),
        "the device's own identity comes from oper-items, read as state"
    );
    let one = neighbor(&coll, "ge100-0/0/1", "0");
    assert_eq!(one.system_name.as_deref(), Some("core2"));
    assert_eq!(one.chassis_id.as_deref(), Some("aa:c1:ab:1a:bf:7a"));
    assert_eq!(one.port_id.as_deref(), Some("eth3"));
    let two = neighbor(&coll, "ge100-0/0/2", "0");
    assert_eq!(two.system_name.as_deref(), Some("mcast-src"));
}

#[test]
fn openconfig_is_chosen_when_the_device_advertises_it() {
    let coll = collect_scripted(&cdnos(), &["openconfig-interfaces", "openconfig-lldp", "dn-lldp"]).expect("collection");
    assert_eq!(coll.interfaces.len(), 2, "interfaces still collected");
    assert_eq!(coll.lldp_model, LldpModel::Advertised("openconfig-lldp"));
    assert!(coll.neighbors.is_empty(), "advertising openconfig-lldp must not read the DriveNets tree");
}

#[test]
fn no_advertised_model_still_collects_over_openconfig() {
    let coll = collect_scripted(&arcos(), &[]).expect("collection must not abort");
    assert_eq!(coll.lldp_model, LldpModel::NoneAdvertised);
    assert!(!coll.interfaces.is_empty(), "interfaces still collected");
    assert!(!coll.neighbors.is_empty(), "openconfig LLDP still read when no model was advertised");
}

fn check_arcos_rows() {
    let coll = collect_scripted(&arcos(), &[]).expect("collection succeeds");
    let rows = rows_of(&coll);
    assert_eq!(rows.len(), 7, "one row per /interfaces entry, LLDP adds none");

    let swp1 = row(&rows, "swp1");
    assert_eq!(swp1.if_index, Some(1001));
    assert_eq!(swp1.if_descr.as_deref(), Some("swp1"));
    assert_eq!(swp1.if_alias, None, "a blank description leaf is no alias");
    assert_eq!(swp1.if_type, Some(6), "ethernetCsmacd");
    assert_eq!(swp1.admin_status, Some(IfAdminStatus::Up));
    assert_eq!(swp1.oper_status, Some(IfOperStatus::Up));
    assert_eq!(swp1.mac_address, None, "ArcOS serves no mac-address leaf");
    assert_eq!(swp1.speed_bps, None, "effective-speed is not the model's port-speed");
    // Two entries for the same peer: the one with an address and a name is the one kept.
    assert_eq!(swp1.lldp_sys_name.as_deref(), Some("netlab-server"));
    assert_eq!(
        swp1.lldp_chassis_id,
        Some(LldpChassisId::NetworkAddress(parse_ip("10.22.64.101").unwrap())),
        "no chassis-id leaf: the management address is the identity"
    );
    assert_eq!(swp1.lldp_port_id, Some(LldpPortId::MacAddress("34:80:0d:44:44:f5".into())));

    assert_eq!(row(&rows, "swp46").if_alias.as_deref(), Some("netlab-mgmt0 : Ethernet48"));
    assert_eq!(row(&rows, "loopback0").if_type, Some(24), "softwareLoopback");
    assert_eq!(row(&rows, "vlan1000").if_type, Some(136), "l3ipvlan");
    assert_eq!(row(&rows, "ma1").if_index, Some(4));

    let swp55 = row(&rows, "swp55");
    assert_eq!(swp55.lldp_sys_name.as_deref(), Some("netlab-spine2"));
    assert_eq!(swp55.lldp_mgmt_addr, Some(parse_ip("10.22.64.103").unwrap()));
    assert_eq!(swp55.lldp_sys_desc.as_deref(), Some("Arrcus Operating System (ArcOS)"));
    assert_eq!(row(&rows, "swp46").lldp_mgmt_addr, Some(parse_ip("fe80::deda:4dff:fe86:f4ea").unwrap()));
}

#[test]
fn mod_arcos_rows_join_interfaces_and_lldp() {
    check_arcos_rows();
}

#[test]
fn tests_arcos_rows_join_interfaces_and_lldp() {
    check_arcos_rows();
}

fn check_interfaces_refused() {
    let served = [(openconfig_lldp().subtrees[1].clone(), ARCOS_LLDP_NEIGHBORS)];
    let err = collect_scripted(&served, &[]).expect_err("no /interfaces");
    assert!(err.contains("openconfig-interfaces is required"), "{err}");
    assert!(err.contains("'interfaces/interface[name=*]/state' is not supported"), "{err}");
}

#[test]
fn mod_interfaces_refused_is_an_error_even_with_lldp_present() {
    check_interfaces_refused();
}

#[test]
fn tests_interfaces_refused_is_an_error_even_with_lldp_present() {
    check_interfaces_refused();
}

// ---------------------------------------------------------------------------------------------
// Beyond the original's own cases
// ---------------------------------------------------------------------------------------------

#[test]
fn typed_scalars_render_as_their_display_text() {
    assert_eq!(scalar_to_string(&TypedValueKind::IntVal(-42)).as_deref(), Some("-42"));
    assert_eq!(scalar_to_string(&TypedValueKind::IntVal(i64::MIN)).as_deref(), Some("-9223372036854775808"));
    assert_eq!(scalar_to_string(&TypedValueKind::UintVal(u64::MAX)).as_deref(), Some("18446744073709551615"));
    assert_eq!(scalar_to_string(&TypedValueKind::BoolVal(true)).as_deref(), Some("true"));
    assert_eq!(scalar_to_string(&TypedValueKind::AsciiVal("x".into())).as_deref(), Some("x"));
    assert_eq!(scalar_to_string(&TypedValueKind::Other), None);
    assert_eq!(scalar_to_string(&TypedValueKind::JsonVal(b"1".to_vec())), None);
}

#[test]
fn a_json_list_keys_its_entries_by_name_then_id() {
    let blob = br#"{"neighbor": [{"id": 3, "state": {"system-name": "a"}}, {"name": "n", "id": 4, "x": true}]}"#;
    let (leaves, ok) = flatten_update(
        &parse_path("lldp").elem,
        &[],
        &TypedValue { value: Some(TypedValueKind::JsonVal(blob.to_vec())) },
    );
    assert!(ok);
    let rendered: Vec<String> = leaves
        .iter()
        .map(|l| format!("{} = {}", render_path(&Path { origin: String::new(), elem: l.elems.clone() }), l.value))
        .collect();
    assert_eq!(
        rendered,
        vec![
            "lldp/neighbor[id=3]/id = 3".to_string(),
            "lldp/neighbor[id=3]/state/system-name = a".to_string(),
            "lldp/neighbor[name=n]/id = 4".to_string(),
            "lldp/neighbor[name=n]/name = n".to_string(),
            "lldp/neighbor[name=n]/x = true".to_string(),
        ]
    );
}

#[test]
fn the_model_decides_the_profile_a_notification_is_read_with() {
    assert_eq!(profile_for(LldpModel::NoneAdvertised).module, "openconfig-lldp");
    assert_eq!(profile_for(LldpModel::Advertised("dn-lldp")).module, "dn-lldp");
    assert_eq!(profile_for(LldpModel::Advertised("openconfig-lldp")).module, "openconfig-lldp");
}

#[test]
fn a_failed_blob_still_lets_the_other_updates_through() {
    let n = Notification {
        prefix: None,
        update: vec![
            update("interfaces", TypedValue { value: Some(TypedValueKind::JsonVal(b"[".to_vec())) }),
            update("interfaces/interface[name=et9]/state/ifindex", typed("9")),
        ],
    };
    let mut coll = Collection::new(LldpModel::NoneAdvertised);
    assert!(!absorb_notification(&mut coll, &n));
    assert_eq!(row(&rows_of(&coll), "et9").if_index, Some(9));
}

#[test]
fn a_collection_contributes_its_rows_and_the_devices_own_chassis() {
    let coll = collect_scripted(&cdnos(), &["dn-lldp"]).expect("collection");
    let integration = GnmiIntegration;
    assert_eq!(integration.estimated_seconds(), 10);
    assert_eq!(integration.timeout_seconds(), 120);
    let c = integration.contribution(&coll, 7, 9, 42);
    assert!(c.interfaces.iter().all(|i| i.created_at == 42 && i.updated_at == 42 && i.valid_to.is_none()));
    assert_eq!(c.interfaces.len(), 2);
    assert!(c.interfaces.iter().all(|i| i.base.host_id == 7 && i.base.network_id == 9));
    assert_eq!(c.chassis_id.as_deref(), Some("84:40:76:56:95:25"));
    assert!(c.authoritative);
    assert!(c.complete.lldp && !c.complete.cdp && !c.complete.fdb && !c.complete.vlan_membership);
}

#[test]
fn a_json_value_flattens_member_by_member_and_entry_by_entry() {
    let entry = JsonValue::Object(vec![
        ("name".to_string(), JsonValue::Text("et1".into())),
        (
            "state".to_string(),
            JsonValue::Object(vec![
                ("mtu".to_string(), JsonValue::Number("1500".into())),
                ("enabled".to_string(), JsonValue::Bool(true)),
                ("nothing".to_string(), JsonValue::Null),
            ]),
        ),
    ]);
    let json = JsonValue::Object(vec![(
        "openconfig-interfaces:interface".to_string(),
        JsonValue::Array(vec![entry]),
    )]);
    let leaves = flatten_json_value(&parse_path("interfaces").elem, &json);
    let rendered: Vec<String> = leaves
        .iter()
        .map(|l| format!("{} = {}", render_path(&Path { origin: String::new(), elem: l.elems.clone() }), l.value))
        .collect();
    assert_eq!(
        rendered,
        vec![
            "interfaces/interface[name=et1]/name = et1".to_string(),
            "interfaces/interface[name=et1]/state/mtu = 1500".to_string(),
            "interfaces/interface[name=et1]/state/enabled = true".to_string(),
        ]
    );
    // A list with nothing above it to name its entries has no leaves.
    assert!(flatten_json_value(&[], &JsonValue::Array(vec![JsonValue::Text("x".into())])).is_empty());
}

#[test]
fn the_plan_reads_the_interfaces_then_the_selected_profile_in_order() {
    let plan = |models: &[&str]| {
        let models: Vec<String> = models.iter().map(|m| m.to_string()).collect();
        let (model, profile, subtrees) = collection_plan(&models);
        (model, profile.module, subtrees.iter().map(|s| render_path(&s.path())).collect::<Vec<_>>())
    };
    assert_eq!(
        plan(&["dn-lldp"]),
        (
            LldpModel::Advertised("dn-lldp"),
            "dn-lldp",
            vec![
                "interfaces/interface[name=*]/state".to_string(),
                "interfaces/interface[name=*]/ethernet/state".to_string(),
                "drivenets-top/protocols/lldp".to_string(),
            ]
        )
    );
    assert_eq!(
        plan(&[]),
        (
            LldpModel::NoneAdvertised,
            "openconfig-lldp",
            vec![
                "interfaces/interface[name=*]/state".to_string(),
                "interfaces/interface[name=*]/ethernet/state".to_string(),
                "lldp/state".to_string(),
                "lldp/interfaces/interface[name=*]".to_string(),
            ]
        )
    );
}

#[test]
fn only_the_interface_table_is_required() {
    let models: Vec<String> = vec!["openconfig-lldp".to_string()];
    let (_, _, subtrees) = collection_plan(&models);
    let required: Vec<bool> = subtrees.iter().map(|s| s.is_required()).collect();
    assert!(required.len() > 2);
    assert!(required[0]);
    assert!(required[1..].iter().all(|r| !r), "{required:?}");
    assert!(Subtree::interface_state().is_required());
    assert!(!Subtree::ethernet_state().is_required());
    assert_eq!(Subtree::ethernet_state().refusal_error("Unavailable"), None);
    assert_eq!(
        Subtree::interface_state().refusal_error("Unavailable: no such path"),
        Some("openconfig-interfaces is required and was not served: Unavailable: no such path".to_string())
    );
}
