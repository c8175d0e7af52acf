use scanopy::lldp::LldpPortId;
use scanopy::topology::{
    after_cdp_port, after_described_port, after_pairing, after_port_id, placed_rows, row_start, RowSettlement,
    RowStep,
};
use scanopy::interfaces::{Interface, InterfaceBase, Neighbor};
use scanopy::lldp::{IdentityResolution, LldpChassisId};
use scanopy::topology::{
    desc_worth_matching, description_offer, fdb_neighbor, neighbour_identifier, host_verdict, port_after_description, port_after_pairing,
    resolution_arm, resolved_neighbor, settle_neighbor, single_fdb_address,
    unmatched_neighbour_warning, unresolved_port_warning, ResolutionArm, ResolutionWarning,
    UnmatchedNeighbour, UnresolvedPort, UnresolvedReason,
};

#[test]
fn a_real_description_is_still_offered_to_the_last_tier() {
    assert_eq!(
        desc_worth_matching(Some("D-Link DGS-1210-48 Rev.GX/7.20.003 Port 9")),
        Some("D-Link DGS-1210-48 Rev.GX/7.20.003 Port 9")
    );
    assert_eq!(desc_worth_matching(Some("Anschluß 4")), Some("Anschluß 4"));
}

#[test]
fn a_description_that_is_not_a_name_is_not_offered() {
    assert_eq!(desc_worth_matching(Some("swp\u{1}2")), None);
    assert_eq!(desc_worth_matching(Some("swp\n2")), None);
    assert_eq!(desc_worth_matching(Some("   ")), None);
    assert_eq!(desc_worth_matching(None), None);
}

#[test]
fn every_unresolved_reason_comes_from_its_resolution() {
    assert_eq!(UnresolvedReason::from_resolution(IdentityResolution::Resolved(4)), None);
    assert_eq!(
        UnresolvedReason::from_resolution(IdentityResolution::NoStrategy),
        Some(UnresolvedReason::NoStrategy)
    );
    assert_eq!(
        UnresolvedReason::from_resolution(IdentityResolution::NotFound),
        Some(UnresolvedReason::NotFound)
    );
    assert_eq!(
        UnresolvedReason::from_resolution(IdentityResolution::Ambiguous),
        Some(UnresolvedReason::Ambiguous)
    );
}

fn port_row() -> Interface {
    let mut base = InterfaceBase::empty();
    base.host_id = 11;
    base.if_descr = Some("swp1".into());
    base.lldp_port_desc = Some("uplink".into());
    Interface::new(base).expect("the clock reads after 1970")
}

#[test]
fn a_far_end_nobody_can_scan_is_not_warned_about() {
    let row = port_row();
    assert_eq!(
        unmatched_neighbour_warning(&row, "aa:bb".into(), None, UnresolvedReason::NoStrategy),
        None
    );
    let expected = UnmatchedNeighbour {
        host_id: 11,
        if_descr: Some("swp1".into()),
        identifier: "aa:bb".into(),
        sys_name: Some("spine".into()),
    };
    assert_eq!(
        unmatched_neighbour_warning(&row, "aa:bb".into(), Some("spine".into()), UnresolvedReason::NotFound),
        Some(ResolutionWarning::LldpNeighbourNotFound(expected.clone()))
    );
    assert_eq!(
        unmatched_neighbour_warning(&row, "aa:bb".into(), Some("spine".into()), UnresolvedReason::Ambiguous),
        Some(ResolutionWarning::LldpNeighbourAmbiguous(expected))
    );
}

#[test]
fn every_unresolved_port_is_warned_about_with_its_description() {
    let row = port_row();
    let d = UnresolvedPort {
        host_id: 11,
        if_descr: Some("swp1".into()),
        remote_host_id: 22,
        port_id: Some("eth0".into()),
        port_desc: Some("uplink".into()),
    };
    assert_eq!(
        unresolved_port_warning(&row, 22, Some("eth0".into()), UnresolvedReason::NoStrategy),
        ResolutionWarning::LldpPortNoStrategy(d.clone())
    );
    assert_eq!(
        unresolved_port_warning(&row, 22, Some("eth0".into()), UnresolvedReason::NotFound),
        ResolutionWarning::LldpPortNotFound(d.clone())
    );
    assert_eq!(
        unresolved_port_warning(&row, 22, Some("eth0".into()), UnresolvedReason::Ambiguous),
        ResolutionWarning::LldpPortAmbiguous(d)
    );
}

#[test]
fn a_row_takes_the_chassis_arm_before_the_cdp_arm() {
    let mut base = InterfaceBase::empty();
    assert_eq!(resolution_arm(&base), ResolutionArm::Skip);
    base.cdp_device_id = Some("router-7".into());
    assert_eq!(resolution_arm(&base), ResolutionArm::Cdp);
    base.lldp_chassis_id = Some(LldpChassisId::MacAddress("00:11:22:33:44:55".into()));
    assert_eq!(resolution_arm(&base), ResolutionArm::Chassis);
}

#[test]
fn a_host_found_earlier_outranks_what_the_pass_computed() {
    assert_eq!(
        host_verdict(Some(Neighbor::Host(5)), Some(IdentityResolution::NotFound)),
        IdentityResolution::Resolved(5)
    );
    assert_eq!(
        host_verdict(Some(Neighbor::Interface(6)), Some(IdentityResolution::Ambiguous)),
        IdentityResolution::Ambiguous
    );
    assert_eq!(host_verdict(None, None), IdentityResolution::NoStrategy);
}

#[test]
fn the_port_tiers_replace_only_what_did_not_resolve() {
    assert_eq!(
        port_after_description(IdentityResolution::Resolved(1), Some(2)),
        IdentityResolution::Resolved(1)
    );
    assert_eq!(
        port_after_description(IdentityResolution::NotFound, Some(2)),
        IdentityResolution::Resolved(2)
    );
    assert_eq!(
        port_after_description(IdentityResolution::Ambiguous, None),
        IdentityResolution::Ambiguous
    );
    assert_eq!(
        port_after_pairing(IdentityResolution::NotFound, Some(IdentityResolution::Resolved(9))),
        IdentityResolution::Resolved(9)
    );
    assert_eq!(port_after_pairing(IdentityResolution::NotFound, None), IdentityResolution::NotFound);
}

#[test]
fn a_resolved_host_is_never_lost_and_nothing_new_keeps_the_old() {
    assert_eq!(
        resolved_neighbor(IdentityResolution::Resolved(3), IdentityResolution::Resolved(30)),
        Some(Neighbor::Interface(30))
    );
    assert_eq!(
        resolved_neighbor(IdentityResolution::Resolved(3), IdentityResolution::NotFound),
        Some(Neighbor::Host(3))
    );
    assert_eq!(resolved_neighbor(IdentityResolution::NotFound, IdentityResolution::Resolved(30)), None);
    assert_eq!(settle_neighbor(Some(Neighbor::Host(3)), None), (Some(Neighbor::Host(3)), false));
    assert_eq!(
        settle_neighbor(Some(Neighbor::Host(3)), Some(Neighbor::Interface(30))),
        (Some(Neighbor::Interface(30)), true)
    );
    assert_eq!(
        settle_neighbor(Some(Neighbor::Host(3)), Some(Neighbor::Host(3))),
        (Some(Neighbor::Host(3)), false)
    );
}

#[test]
fn only_a_single_address_fdb_port_is_placed() {
    let mut base = InterfaceBase::empty();
    assert_eq!(single_fdb_address(&base), None);
    base.fdb_macs = Some(vec!["00:11:22:33:44:55".into()]);
    assert_eq!(single_fdb_address(&base).as_deref(), Some("00:11:22:33:44:55"));
    base.fdb_macs = Some(vec!["00:11:22:33:44:55".into(), "00:11:22:33:44:56".into()]);
    assert_eq!(single_fdb_address(&base), None);
    assert_eq!(
        fdb_neighbor(IdentityResolution::Resolved(8), IdentityResolution::Ambiguous),
        Some(Neighbor::Host(8))
    );
}

#[test]
fn the_description_is_offered_only_once_the_port_id_has_failed() {
    let desc = Some("D-Link DGS-1210-48 Rev.GX/7.20.003 Port 9");
    assert_eq!(description_offer(IdentityResolution::Resolved(3), desc), None);
    assert_eq!(description_offer(IdentityResolution::NotFound, desc), desc);
    assert_eq!(description_offer(IdentityResolution::NoStrategy, Some("   ")), None);
}

#[test]
fn a_warning_names_the_far_end_by_its_arms_identifier() {
    let mut base = InterfaceBase::empty();
    base.lldp_chassis_id = Some(LldpChassisId::MacAddress("00:11:22:33:44:55".into()));
    base.lldp_sys_name = Some("spine".into());
    base.cdp_device_id = Some("router-7".into());
    assert_eq!(
        neighbour_identifier(&base, ResolutionArm::Chassis),
        ("00:11:22:33:44:55".to_string(), Some("spine".to_string()))
    );
    assert_eq!(neighbour_identifier(&base, ResolutionArm::Cdp), ("router-7".to_string(), None));
    assert_eq!(neighbour_identifier(&base, ResolutionArm::Skip), (String::new(), None));
}

#[test]
fn a_row_steps_through_its_tiers_in_order() {
    let settled_as = |neighbor, changed, host_unresolved, port_unresolved| {
        RowStep::Done(RowSettlement { neighbor, changed, host_unresolved, port_unresolved })
    };

    // No identity: nothing is asked, and the row keeps what it holds.
    let empty = InterfaceBase::empty();
    assert_eq!(row_start(&empty, Some(Neighbor::Host(3)), None), settled_as(Some(Neighbor::Host(3)), false, None, None));

    // The chassis arm with an unplaced far end is settled at once, and says why.
    let mut chassis = InterfaceBase::empty();
    chassis.lldp_chassis_id = Some(LldpChassisId::MacAddress("00:11:22:33:44:55".into()));
    assert_eq!(
        row_start(&chassis, None, Some(IdentityResolution::NotFound)),
        settled_as(None, false, Some(UnresolvedReason::NotFound), None)
    );
    // With a port id, its verdict is asked for; without one, the description tier is next.
    chassis.lldp_port_desc = Some("uplink".into());
    assert_eq!(
        row_start(&chassis, None, Some(IdentityResolution::Resolved(9))),
        RowStep::FindDescribedPort { host: 9, by_id: IdentityResolution::NoStrategy, name: "uplink".into() }
    );
    chassis.lldp_port_id = Some(LldpPortId::InterfaceName("swp2".into()));
    assert_eq!(row_start(&chassis, None, Some(IdentityResolution::Resolved(9))), RowStep::ResolvePortId { host: 9 });
    assert_eq!(
        after_port_id(&chassis, 9, IdentityResolution::Resolved(21)),
        RowStep::AskPairing { host: 9, port: IdentityResolution::Resolved(21) }
    );
    assert_eq!(
        after_port_id(&chassis, 9, IdentityResolution::NotFound),
        RowStep::FindDescribedPort { host: 9, by_id: IdentityResolution::NotFound, name: "uplink".into() }
    );
    assert_eq!(
        after_described_port(9, IdentityResolution::NotFound, None),
        RowStep::AskPairing { host: 9, port: IdentityResolution::NotFound }
    );
    assert_eq!(
        after_described_port(9, IdentityResolution::NotFound, Some(22)),
        RowStep::AskPairing { host: 9, port: IdentityResolution::Resolved(22) }
    );

    // The CDP arm asks for the port its port id names.
    let mut cdp = InterfaceBase::empty();
    cdp.cdp_device_id = Some("router-7".into());
    assert_eq!(
        row_start(&cdp, None, Some(IdentityResolution::Resolved(5))),
        RowStep::AskPairing { host: 5, port: IdentityResolution::NoStrategy }
    );
    cdp.cdp_port_id = Some("Gi0/1".into());
    assert_eq!(
        row_start(&cdp, None, Some(IdentityResolution::Resolved(5))),
        RowStep::FindCdpPort { host: 5, name: "Gi0/1".into() }
    );
    assert_eq!(after_cdp_port(5, None), RowStep::AskPairing { host: 5, port: IdentityResolution::NotFound });

    // Settling: a pairing replaces the verdict; an unplaced port leaves the device and is reported.
    assert_eq!(
        after_pairing(None, 5, IdentityResolution::NotFound, Some(IdentityResolution::Resolved(30))),
        RowSettlement { neighbor: Some(Neighbor::Interface(30)), changed: true, host_unresolved: None, port_unresolved: None }
    );
    assert_eq!(
        after_pairing(Some(Neighbor::Host(5)), 5, IdentityResolution::Ambiguous, None),
        RowSettlement {
            neighbor: Some(Neighbor::Host(5)),
            changed: false,
            host_unresolved: None,
            port_unresolved: Some((5, UnresolvedReason::Ambiguous)),
        }
    );
}

#[test]
fn an_fdb_pass_reports_how_many_rows_it_placed() {
    assert_eq!(placed_rows(&[]), 0);
    assert_eq!(
        placed_rows(&[Some(Neighbor::Host(1)), None, Some(Neighbor::Interface(4)), None]),
        2
    );
}
