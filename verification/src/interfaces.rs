//! Network interfaces as the server stores them: one row per port of a device's ifTable, or per
//! port learned from a neighbour's advertisement, with what LLDP, CDP and the bridge FDB said is
//! at the other end of it.

use vstd::prelude::*;
use crate::clock::{new_uuid, now_micros};
use crate::lldp::{
    LldpChassisId, LldpPortId, ChassisView, PortView, opt_text, port_name_text,
    chassis_identifier_text,
};
use crate::net::IpAddress;
use crate::text::{
    all_pad, trim_spec, trim_str, has_non_ascii_ws, string_of, chars_of, extend_str, copy_text,
    extend_chars, i64_text, signed_decimal_text,
};

verus! {

broadcast use vstd::string::group_string_axioms;

// ---------------------------------------------------------------------------------------------
// Completeness of a scan
// ---------------------------------------------------------------------------------------------

/// Which groups of per-interface data the daemon read in full during a scan. A walk cut short
/// yields the same empty result as a device with nothing to report, so the server keeps what it
/// holds for any group not read in full.
#[derive(Debug, Clone, Copy, PartialEq, Eq, Structural)]
pub struct InterfaceDataComplete {
    /// `lldp_chassis_id`, `lldp_port_id`, `lldp_sys_name`, `lldp_port_desc`, `lldp_mgmt_addr`,
    /// `lldp_sys_desc`
    pub lldp: bool,
    /// `cdp_device_id`, `cdp_port_id`, `cdp_platform`, `cdp_address`
    pub cdp: bool,
    /// `fdb_macs`
    pub fdb: bool,
    /// `native_vlan_id`, `vlan_ids`
    pub vlan_membership: bool,
}

impl Default for InterfaceDataComplete {
    /// Every group authoritative: what a daemon that never sends the field meant.
    fn default() -> (r: Self)
        ensures
            r.lldp && r.cdp && r.fdb && r.vlan_membership,
    {
        InterfaceDataComplete { lldp: true, cdp: true, fdb: true, vlan_membership: true }
    }
}

impl InterfaceDataComplete {
    /// Whether every group was read in full.
    pub fn all(&self) -> (r: bool)
        ensures
            r == (self.lldp && self.cdp && self.fdb && self.vlan_membership),
    {
        self.lldp && self.cdp && self.fdb && self.vlan_membership
    }

    /// No group has been read yet, so the server keeps everything it already holds.
    pub fn none() -> (r: Self)
        ensures
            !r.lldp && !r.cdp && !r.fdb && !r.vlan_membership,
    {
        InterfaceDataComplete { lldp: false, cdp: false, fdb: false, vlan_membership: false }
    }
}

// ---------------------------------------------------------------------------------------------
// Neighbours and link state
// ---------------------------------------------------------------------------------------------

/// The remote endpoint a port connects to: the specific port (full resolution) or only the
/// device (partial resolution).
#[derive(Debug, Clone, Copy, PartialEq, Eq, Hash, Structural)]
pub enum Neighbor {
    Interface(u128),
    Host(u128),
}

impl Neighbor {
    /// The interface id, for a full resolution.
    pub fn interface_id(&self) -> (r: Option<u128>)
        ensures
            r == (match *self {
                Neighbor::Interface(id) => Some(id),
                Neighbor::Host(_) => None,
            }),
    {
        match self {
            Neighbor::Interface(id) => Some(*id),
            Neighbor::Host(_) => None,
        }
    }

    /// Whether the remote port is known.
    pub fn is_full_resolution(&self) -> (r: bool)
        ensures
            r == (*self is Interface),
    {
        matches!(self, Neighbor::Interface(_))
    }

    /// Whether only the remote host is known.
    pub fn is_partial_resolution(&self) -> (r: bool)
        ensures
            r == (*self is Host),
    {
        matches!(self, Neighbor::Host(_))
    }
}

/// Whether a port resolved to a neighbour, in either direction.
#[derive(Debug, Clone, Copy, PartialEq, Eq, Hash, Structural)]
pub enum InterfaceLinkState {
    Linked,
    Unlinked,
}

impl InterfaceLinkState {
    /// Linked when the port has a neighbour of its own or something names it as one; a partial
    /// resolution counts, since it still draws an edge.
    pub fn classify(neighbor: Option<&Neighbor>, referenced_as_neighbour: bool) -> (r: Self)
        ensures
            r == (if neighbor is Some || referenced_as_neighbour {
                InterfaceLinkState::Linked
            } else {
                InterfaceLinkState::Unlinked
            }),
    {
        if neighbor.is_some() || referenced_as_neighbour {
            InterfaceLinkState::Linked
        } else {
            InterfaceLinkState::Unlinked
        }
    }

    /// The variant's name, which is also its filter value.
    pub fn id(&self) -> (r: &'static str)
        ensures
            r@ == (match *self {
                InterfaceLinkState::Linked => "Linked"@,
                InterfaceLinkState::Unlinked => "Unlinked"@,
            }),
    {
        match self {
            InterfaceLinkState::Linked => "Linked",
            InterfaceLinkState::Unlinked => "Unlinked",
        }
    }

    /// The name the filter panel shows.
    pub fn name(&self) -> (r: &'static str)
        ensures
            r@ == (match *self {
                InterfaceLinkState::Linked => "Linked"@,
                InterfaceLinkState::Unlinked => "Unlinked"@,
            }),
    {
        match self {
            InterfaceLinkState::Linked => "Linked",
            InterfaceLinkState::Unlinked => "Unlinked",
        }
    }

    /// A one-line description for the filter panel.
    pub fn description(&self) -> (r: &'static str)
        ensures
            r@ == (match *self {
                InterfaceLinkState::Linked => "Ports with a discovered neighbour"@,
                InterfaceLinkState::Unlinked => "Ports with no discovered neighbour"@,
            }),
    {
        match self {
            InterfaceLinkState::Linked => "Ports with a discovered neighbour",
            InterfaceLinkState::Unlinked => "Ports with no discovered neighbour",
        }
    }
}

// ---------------------------------------------------------------------------------------------
// SNMP status values
// ---------------------------------------------------------------------------------------------

/// SNMP ifAdminStatus values per IF-MIB (RFC 2863).
#[derive(Debug, Clone, Copy, PartialEq, Eq, Hash, Structural)]
pub enum IfAdminStatus {
    Up,
    Down,
    Testing,
}

/// The status for an ifAdminStatus number; an unknown number reads as up.
pub open spec fn admin_status_of(value: i32) -> IfAdminStatus {
    if value == 2 {
        IfAdminStatus::Down
    } else if value == 3 {
        IfAdminStatus::Testing
    } else {
        IfAdminStatus::Up
    }
}

pub open spec fn admin_status_number(s: IfAdminStatus) -> i32 {
    match s {
        IfAdminStatus::Up => 1,
        IfAdminStatus::Down => 2,
        IfAdminStatus::Testing => 3,
    }
}

impl Default for IfAdminStatus {
    fn default() -> (r: Self)
        ensures
            r == IfAdminStatus::Up,
    {
        IfAdminStatus::Up
    }
}

impl From<i32> for IfAdminStatus {
    fn from(value: i32) -> (r: Self) {
        match value {
            2 => IfAdminStatus::Down,
            3 => IfAdminStatus::Testing,
            _ => IfAdminStatus::Up,
        }
    }
}

impl vstd::std_specs::convert::FromSpecImpl<i32> for IfAdminStatus {
    open spec fn obeys_from_spec() -> bool {
        true
    }

    open spec fn from_spec(v: i32) -> Self {
        admin_status_of(v)
    }
}

impl IfAdminStatus {
    /// The IF-MIB number of the status.
    pub fn number(self) -> (r: i32)
        ensures
            r == admin_status_number(self),
    {
        match self {
            IfAdminStatus::Up => 1,
            IfAdminStatus::Down => 2,
            IfAdminStatus::Testing => 3,
        }
    }
}

/// SNMP ifOperStatus values per IF-MIB (RFC 2863).
#[derive(Debug, Clone, Copy, PartialEq, Eq, Hash, Structural)]
pub enum IfOperStatus {
    Up,
    Down,
    Testing,
    Unknown,
    Dormant,
    NotPresent,
    LowerLayerDown,
}

/// The status for an ifOperStatus number; an unknown number reads as `Unknown`.
pub open spec fn oper_status_of(value: i32) -> IfOperStatus {
    if value == 1 {
        IfOperStatus::Up
    } else if value == 2 {
        IfOperStatus::Down
    } else if value == 3 {
        IfOperStatus::Testing
    } else if value == 5 {
        IfOperStatus::Dormant
    } else if value == 6 {
        IfOperStatus::NotPresent
    } else if value == 7 {
        IfOperStatus::LowerLayerDown
    } else {
        IfOperStatus::Unknown
    }
}

pub open spec fn oper_status_number(s: IfOperStatus) -> i32 {
    match s {
        IfOperStatus::Up => 1,
        IfOperStatus::Down => 2,
        IfOperStatus::Testing => 3,
        IfOperStatus::Unknown => 4,
        IfOperStatus::Dormant => 5,
        IfOperStatus::NotPresent => 6,
        IfOperStatus::LowerLayerDown => 7,
    }
}

impl Default for IfOperStatus {
    fn default() -> (r: Self)
        ensures
            r == IfOperStatus::Up,
    {
        IfOperStatus::Up
    }
}

impl From<i32> for IfOperStatus {
    fn from(value: i32) -> (r: Self) {
        match value {
            1 => IfOperStatus::Up,
            2 => IfOperStatus::Down,
            3 => IfOperStatus::Testing,
            5 => IfOperStatus::Dormant,
            6 => IfOperStatus::NotPresent,
            7 => IfOperStatus::LowerLayerDown,
            _ => IfOperStatus::Unknown,
        }
    }
}

impl vstd::std_specs::convert::FromSpecImpl<i32> for IfOperStatus {
    open spec fn obeys_from_spec() -> bool {
        true
    }

    open spec fn from_spec(v: i32) -> Self {
        oper_status_of(v)
    }
}

impl IfOperStatus {
    /// The IF-MIB number of the status.
    pub fn number(self) -> (r: i32)
        ensures
            r == oper_status_number(self),
    {
        match self {
            IfOperStatus::Up => 1,
            IfOperStatus::Down => 2,
            IfOperStatus::Testing => 3,
            IfOperStatus::Unknown => 4,
            IfOperStatus::Dormant => 5,
            IfOperStatus::NotPresent => 6,
            IfOperStatus::LowerLayerDown => 7,
        }
    }
}

/// Reading a status back from its number gives the same status.
pub proof fn lemma_status_numbers_round_trip(a: IfAdminStatus, o: IfOperStatus)
    ensures
        admin_status_of(admin_status_number(a)) == a,
        oper_status_of(oper_status_number(o)) == o,
{
}

// ---------------------------------------------------------------------------------------------
// The interface row
// ---------------------------------------------------------------------------------------------

/// One port of a device. Ids are UUIDs as their 128-bit value; times are microseconds since
/// the Unix epoch.
#[derive(Debug, Clone)]
pub struct InterfaceBase {
    /// The host this entity belongs to.
    pub host_id: u128,
    /// The network this entity belongs to.
    pub network_id: u128,
    /// SNMP ifIndex, where one was read.
    pub if_index: Option<i32>,
    /// SNMP ifDescr, where one was read.
    pub if_descr: Option<String>,
    /// SNMP ifName.
    pub if_name: Option<String>,
    /// SNMP ifAlias.
    pub if_alias: Option<String>,
    /// SNMP ifType (IANAifType), where one was read; `None` is unknown, never a type.
    pub if_type: Option<i32>,
    /// Speed in bits per second.
    pub speed_bps: Option<i64>,
    /// SNMP ifAdminStatus, or `None` where nothing read it.
    pub admin_status: Option<IfAdminStatus>,
    /// SNMP ifOperStatus, or `None` where nothing read it.
    pub oper_status: Option<IfOperStatus>,
    /// The port's MAC address, canonical text.
    pub mac_address: Option<String>,
    /// This port's IP assignment.
    pub ip_address_id: Option<u128>,
    /// Resolved neighbour connection.
    pub neighbor: Option<Neighbor>,
    /// When a scan last carried evidence that something is adjacent to this port.
    pub neighbor_seen_at: Option<i64>,
    /// Remote chassis identifier from LLDP.
    pub lldp_chassis_id: Option<LldpChassisId>,
    /// Remote port identifier from LLDP.
    pub lldp_port_id: Option<LldpPortId>,
    /// Remote system name from LLDP.
    pub lldp_sys_name: Option<String>,
    /// Remote port description from LLDP.
    pub lldp_port_desc: Option<String>,
    /// Remote management address from LLDP.
    pub lldp_mgmt_addr: Option<IpAddress>,
    /// Remote system description from LLDP.
    pub lldp_sys_desc: Option<String>,
    /// Remote device id from CDP.
    pub cdp_device_id: Option<String>,
    /// Remote port id from CDP.
    pub cdp_port_id: Option<String>,
    /// Remote platform from CDP.
    pub cdp_platform: Option<String>,
    /// Remote management address from CDP.
    pub cdp_address: Option<IpAddress>,
    /// Bridge FDB: MAC addresses learned on this port.
    pub fdb_macs: Option<Vec<String>>,
    /// Native (untagged) VLAN.
    pub native_vlan_id: Option<u128>,
    /// Tagged VLANs.
    pub vlan_ids: Option<Vec<u128>>,
}

impl Default for InterfaceBase {
    /// A row with nothing read (see [`InterfaceBase::empty`]).
    fn default() -> (r: Self)
        ensures
            r.host_id == 0 && r.network_id == 0,
            r.if_index is None && r.if_descr is None && r.if_name is None && r.if_alias is None,
            r.if_type is None && r.speed_bps is None && r.admin_status is None,
            r.oper_status is None && r.mac_address is None && r.ip_address_id is None,
            r.neighbor is None && r.neighbor_seen_at is None && r.lldp_chassis_id is None,
            r.lldp_port_id is None && r.lldp_sys_name is None && r.lldp_port_desc is None,
            r.lldp_mgmt_addr is None && r.lldp_sys_desc is None && r.cdp_device_id is None,
            r.cdp_port_id is None && r.cdp_platform is None && r.cdp_address is None,
            r.fdb_macs is None && r.native_vlan_id is None && r.vlan_ids is None,
    {
        InterfaceBase::empty()
    }
}

impl InterfaceBase {
    /// A row with nothing read: nil ids and every optional field absent.
    pub fn empty() -> (r: Self)
        ensures
            r.host_id == 0 && r.network_id == 0,
            r.if_index is None && r.if_descr is None && r.if_name is None && r.if_alias is None,
            r.if_type is None && r.speed_bps is None && r.admin_status is None,
            r.oper_status is None && r.mac_address is None && r.ip_address_id is None,
            r.neighbor is None && r.neighbor_seen_at is None && r.lldp_chassis_id is None,
            r.lldp_port_id is None && r.lldp_sys_name is None && r.lldp_port_desc is None,
            r.lldp_mgmt_addr is None && r.lldp_sys_desc is None && r.cdp_device_id is None,
            r.cdp_port_id is None && r.cdp_platform is None && r.cdp_address is None,
            r.fdb_macs is None && r.native_vlan_id is None && r.vlan_ids is None,
    {
        InterfaceBase {
            host_id: 0,
            network_id: 0,
            if_index: None,
            if_descr: None,
            if_name: None,
            if_alias: None,
            if_type: None,
            speed_bps: None,
            admin_status: None,
            oper_status: None,
            mac_address: None,
            ip_address_id: None,
            neighbor: None,
            neighbor_seen_at: None,
            lldp_chassis_id: None,
            lldp_port_id: None,
            lldp_sys_name: None,
            lldp_port_desc: None,
            lldp_mgmt_addr: None,
            lldp_sys_desc: None,
            cdp_device_id: None,
            cdp_port_id: None,
            cdp_platform: None,
            cdp_address: None,
            fdb_macs: None,
            native_vlan_id: None,
            vlan_ids: None,
        }
    }
}

/// A stored interface: the row, with its identity and history columns.
#[derive(Debug, Clone)]
pub struct Interface {
    pub id: u128,
    pub created_at: i64,
    pub updated_at: i64,
    pub valid_from: i64,
    pub valid_to: Option<i64>,
    pub lineage_id: Option<u128>,
    pub last_seen_at: i64,
    pub last_discovery_id: Option<u128>,
    pub first_discovery_id: Option<u128>,
    pub base: InterfaceBase,
}

/// What an interface is called in labels.
pub open spec fn display_name_spec(b: InterfaceBase) -> Seq<char> {
    if b.if_alias is Some && b.if_alias->0@.len() > 0 {
        b.if_alias->0@
    } else if b.if_descr is Some && b.if_descr->0@.len() > 0 {
        b.if_descr->0@
    } else if b.mac_address is Some {
        b.mac_address->0@
    } else {
        "Interface"@
    }
}

/// Whether a bridge-FDB port learned exactly one address.
pub open spec fn single_fdb_mac(b: InterfaceBase) -> bool {
    b.fdb_macs is Some && b.fdb_macs->0@.len() == 1
}

/// Whether the row carries evidence of something adjacent: an LLDP chassis id, a CDP device
/// id, or an FDB port that learned exactly one address.
pub open spec fn neighbor_evidence(b: InterfaceBase) -> bool {
    b.lldp_chassis_id is Some || b.cdp_device_id is Some || single_fdb_mac(b)
}

/// Whether the remote port, if resolved, could only have been matched on a MAC.
pub open spec fn bound_by_mac(b: InterfaceBase) -> bool {
    (b.lldp_port_id is Some && b.lldp_port_id->0@ is MacAddress) || (b.lldp_chassis_id is None
        && b.cdp_device_id is None && single_fdb_mac(b))
}

/// The far end's own port name: the naming port id, else the CDP port id, else the LLDP port
/// description (the first one present), trimmed, and absent when blank.
pub open spec fn far_end_port_name(b: InterfaceBase) -> Option<Seq<char>> {
    let named = match b.lldp_port_id {
        Some(p) => port_name_text(p@),
        None => None,
    };
    let chosen = if named is Some {
        named
    } else if b.cdp_port_id is Some {
        opt_text(b.cdp_port_id)
    } else {
        opt_text(b.lldp_port_desc)
    };
    match chosen {
        Some(n) => if trim_spec(n).len() > 0 {
            Some(trim_spec(n))
        } else {
            None
        },
        None => None,
    }
}

/// The far end's own port MAC, when its port id is one.
pub open spec fn far_end_port_mac(b: InterfaceBase) -> Option<Seq<char>> {
    match b.lldp_port_id {
        Some(p) => match p@ {
            PortView::MacAddress(m) => Some(m),
            _ => None,
        },
        None => None,
    }
}

/// What the far end published about its own port on this cable.
#[derive(Debug, Clone)]
pub struct AdvertisedFarEndPort {
    /// The name a walk of the far end would return as `ifName`, as near as the row knows it.
    pub name: Option<String>,
    /// The port's MAC.
    pub mac: Option<String>,
}

fn copy_chassis(c: &Option<LldpChassisId>) -> (r: Option<LldpChassisId>)
    ensures
        r == *c,
{
    match c {
        Some(LldpChassisId::ChassisComponent(s)) => Some(LldpChassisId::ChassisComponent(s.clone())),
        Some(LldpChassisId::InterfaceAlias(s)) => Some(LldpChassisId::InterfaceAlias(s.clone())),
        Some(LldpChassisId::PortComponent(s)) => Some(LldpChassisId::PortComponent(s.clone())),
        Some(LldpChassisId::MacAddress(s)) => Some(LldpChassisId::MacAddress(s.clone())),
        Some(LldpChassisId::NetworkAddress(a)) => Some(LldpChassisId::NetworkAddress(*a)),
        Some(LldpChassisId::InterfaceName(s)) => Some(LldpChassisId::InterfaceName(s.clone())),
        Some(LldpChassisId::LocallyAssigned(s)) => Some(LldpChassisId::LocallyAssigned(s.clone())),
        None => None,
    }
}

fn copy_port(p: &Option<LldpPortId>) -> (r: Option<LldpPortId>)
    ensures
        r == *p,
{
    match p {
        Some(LldpPortId::InterfaceAlias(s)) => Some(LldpPortId::InterfaceAlias(s.clone())),
        Some(LldpPortId::PortComponent(s)) => Some(LldpPortId::PortComponent(s.clone())),
        Some(LldpPortId::MacAddress(s)) => Some(LldpPortId::MacAddress(s.clone())),
        Some(LldpPortId::NetworkAddress(a)) => Some(LldpPortId::NetworkAddress(*a)),
        Some(LldpPortId::InterfaceName(s)) => Some(LldpPortId::InterfaceName(s.clone())),
        Some(LldpPortId::AgentCircuitId(s)) => Some(LldpPortId::AgentCircuitId(s.clone())),
        Some(LldpPortId::LocallyAssigned(s)) => Some(LldpPortId::LocallyAssigned(s.clone())),
        None => None,
    }
}

fn copy_texts(v: &Option<Vec<String>>) -> (r: Option<Vec<String>>)
    ensures
        r matches Some(w) ==> v matches Some(x) && w@ == x@,
        r is None <==> v is None,
{
    match v {
        None => None,
        Some(x) => {
            let mut w: Vec<String> = Vec::new();
            let mut i: usize = 0;
            while i < x.len()
                invariant
                    i <= x@.len(),
                    w@ == x@.subrange(0, i as int),
                decreases x.len() - i,
            {
                w.push(x[i].clone());
                i = i + 1;
                assert(w@ =~= x@.subrange(0, i as int));
            }
            assert(x@.subrange(0, x@.len() as int) =~= x@);
            Some(w)
        },
    }
}

fn copy_ids(v: &Option<Vec<u128>>) -> (r: Option<Vec<u128>>)
    ensures
        r matches Some(w) ==> v matches Some(x) && w@ == x@,
        r is None <==> v is None,
{
    match v {
        None => None,
        Some(x) => {
            let mut w: Vec<u128> = Vec::new();
            let mut i: usize = 0;
            while i < x.len()
                invariant
                    i <= x@.len(),
                    w@ == x@.subrange(0, i as int),
                decreases x.len() - i,
            {
                w.push(x[i]);
                i = i + 1;
                assert(w@ =~= x@.subrange(0, i as int));
            }
            assert(x@.subrange(0, x@.len() as int) =~= x@);
            Some(w)
        },
    }
}

/// Equal optional sequences, by view.
pub open spec fn same_texts(a: Option<Vec<String>>, b: Option<Vec<String>>) -> bool {
    (a is None && b is None) || (a is Some && b is Some && a->0@ == b->0@)
}

pub open spec fn same_ids(a: Option<Vec<u128>>, b: Option<Vec<u128>>) -> bool {
    (a is None && b is None) || (a is Some && b is Some && a->0@ == b->0@)
}

/// The LLDP group of two rows agrees.
pub open spec fn same_lldp(a: InterfaceBase, b: InterfaceBase) -> bool {
    a.lldp_chassis_id == b.lldp_chassis_id && a.lldp_port_id == b.lldp_port_id && a.lldp_sys_name
        == b.lldp_sys_name && a.lldp_port_desc == b.lldp_port_desc && a.lldp_mgmt_addr
        == b.lldp_mgmt_addr && a.lldp_sys_desc == b.lldp_sys_desc
}

/// The CDP group of two rows agrees.
pub open spec fn same_cdp(a: InterfaceBase, b: InterfaceBase) -> bool {
    a.cdp_device_id == b.cdp_device_id && a.cdp_port_id == b.cdp_port_id && a.cdp_platform
        == b.cdp_platform && a.cdp_address == b.cdp_address
}

/// The VLAN group of two rows agrees.
pub open spec fn same_vlans(a: InterfaceBase, b: InterfaceBase) -> bool {
    a.native_vlan_id == b.native_vlan_id && same_ids(a.vlan_ids, b.vlan_ids)
}

/// Everything outside the four collected groups agrees.
pub open spec fn same_port_facts(a: InterfaceBase, b: InterfaceBase) -> bool {
    a.host_id == b.host_id && a.network_id == b.network_id && a.if_index == b.if_index
        && a.if_descr == b.if_descr && a.if_name == b.if_name && a.if_alias == b.if_alias
        && a.if_type == b.if_type && a.speed_bps == b.speed_bps && a.admin_status
        == b.admin_status && a.oper_status == b.oper_status && a.mac_address == b.mac_address
        && a.ip_address_id == b.ip_address_id && a.neighbor == b.neighbor && a.neighbor_seen_at
        == b.neighbor_seen_at
}

/// An optional name that is present but blank once trimmed reads as absent.
pub open spec fn blank_as_absent(o: Option<String>, r: Option<String>) -> bool {
    if o is Some && trim_spec(o->0@).len() == 0 {
        r is None
    } else {
        r == o
    }
}

/// How an interface is written in a log line: its id, its ifIndex where it has one (a port
/// learned from a neighbour's advertisement has none), and its description.
pub open spec fn interface_text(i: Interface) -> Seq<char> {
    let descr = match i.base.if_descr {
        Some(d) => d@,
        None => "(no description)"@,
    };
    match i.base.if_index {
        Some(n) => "Interface "@ + crate::clock::uuid_text(i.id) + " (ifIndex "@ + signed_decimal_text(
            n as int,
        ) + "): "@ + descr,
        None => "Interface "@ + crate::clock::uuid_text(i.id) + ": "@ + descr,
    }
}

impl Interface {
    /// The interface as a log line writes it (see [`interface_text`]).
    pub fn text(&self) -> (r: String)
        ensures
            r@ == interface_text(*self),
    {
        let mut out: Vec<char> = Vec::new();
        extend_str(&mut out, "Interface ");
        let id = crate::clock::uuid_text_of(self.id);
        extend_str(&mut out, id.as_str());
        match self.base.if_index {
            Some(n) => {
                extend_str(&mut out, " (ifIndex ");
                let digits = i64_text(n as i64);
                extend_chars(&mut out, digits.as_slice());
                extend_str(&mut out, "): ");
            },
            None => {
                extend_str(&mut out, ": ");
            },
        }
        match &self.base.if_descr {
            Some(d) => extend_str(&mut out, d.as_str()),
            None => extend_str(&mut out, "(no description)"),
        }
        string_of(out.as_slice())
    }

    /// Whether replacing `other` by this entry changes the topology: a new or deleted entry
    /// does, as does a change of neighbour, IP assignment or host.
    pub fn triggers_staleness(&self, other: Option<Interface>) -> (r: bool)
        ensures
            r == match other {
                Some(o) => self.base.neighbor != o.base.neighbor || self.base.ip_address_id
                    != o.base.ip_address_id || self.base.host_id != o.base.host_id,
                None => true,
            },
    {
        match other {
            Some(o) => {
                let same_neighbor = match (self.base.neighbor, o.base.neighbor) {
                    (Some(Neighbor::Interface(a)), Some(Neighbor::Interface(b))) => a == b,
                    (Some(Neighbor::Host(a)), Some(Neighbor::Host(b))) => a == b,
                    (None, None) => true,
                    _ => false,
                };
                !same_neighbor || self.base.ip_address_id != o.base.ip_address_id
                    || self.base.host_id != o.base.host_id
            },
            None => true,
        }
    }

    /// A record for `base` with id `id` and every time column set to `now`.
    pub fn stamped(base: InterfaceBase, id: u128, now: i64) -> (r: Self)
        ensures
            r == (Interface {
                id,
                created_at: now,
                updated_at: now,
                valid_from: now,
                valid_to: None,
                lineage_id: None,
                last_seen_at: now,
                last_discovery_id: None,
                first_discovery_id: None,
                base,
            }),
    {
        Interface {
            id,
            created_at: now,
            updated_at: now,
            valid_from: now,
            valid_to: None,
            lineage_id: None,
            last_seen_at: now,
            last_discovery_id: None,
            first_discovery_id: None,
            base,
        }
    }

    /// A new record for `base`, with a fresh id and every time column set to now; nothing when
    /// the machine's clock cannot say what now is (see [`now_micros`]).
    pub fn new(base: InterfaceBase) -> (r: Option<Self>)
        ensures
            r matches Some(i) ==> {
                &&& i.base == base
                &&& i.created_at == i.updated_at && i.updated_at == i.valid_from && i.valid_from
                    == i.last_seen_at && i.created_at >= 0
                &&& i.valid_to is None && i.lineage_id is None
                &&& i.last_discovery_id is None && i.first_discovery_id is None
            },
    {
        match now_micros() {
            Some(now) => Some(Interface::stamped(base, new_uuid(), now)),
            None => None,
        }
    }

    /// Operationally up; an unread status is not up.
    pub fn is_up(&self) -> (r: bool)
        ensures
            r == (self.base.oper_status == Some(IfOperStatus::Up)),
    {
        match self.base.oper_status {
            Some(IfOperStatus::Up) => true,
            _ => false,
        }
    }

    /// Administratively up; an unread status is not up.
    pub fn is_admin_up(&self) -> (r: bool)
        ensures
            r == (self.base.admin_status == Some(IfAdminStatus::Up)),
    {
        match self.base.admin_status {
            Some(IfAdminStatus::Up) => true,
            _ => false,
        }
    }

    /// The label for this port: ifAlias, then ifDescr (each only when non-empty), then the MAC,
    /// then `"Interface"`.
    pub fn display_name(&self) -> (r: String)
        ensures
            r@ == display_name_spec(self.base),
    {
        if let Some(alias) = &self.base.if_alias {
            if !alias.as_str().is_empty() {
                return alias.clone();
            }
        }
        if let Some(descr) = &self.base.if_descr {
            if !descr.as_str().is_empty() {
                return descr.clone();
            }
        }
        if let Some(mac) = &self.base.mac_address {
            return mac.clone();
        }
        "Interface".to_owned()
    }

    /// Whether the port has a resolved neighbour.
    pub fn has_neighbor(&self) -> (r: bool)
        ensures
            r == self.base.neighbor is Some,
    {
        self.base.neighbor.is_some()
    }

    /// Whether the neighbour is resolved down to its port.
    pub fn has_full_neighbor_resolution(&self) -> (r: bool)
        ensures
            r == (self.base.neighbor matches Some(n) && n is Interface),
    {
        match self.base.neighbor {
            Some(n) => n.is_full_resolution(),
            None => false,
        }
    }

    /// Whether the port carries raw LLDP data.
    pub fn has_lldp_data(&self) -> (r: bool)
        ensures
            r == (self.base.lldp_chassis_id is Some || self.base.lldp_port_id is Some),
    {
        self.base.lldp_chassis_id.is_some() || self.base.lldp_port_id.is_some()
    }

    /// Whether the port carries raw CDP data.
    pub fn has_cdp_data(&self) -> (r: bool)
        ensures
            r == (self.base.cdp_device_id is Some || self.base.cdp_port_id is Some),
    {
        self.base.cdp_device_id.is_some() || self.base.cdp_port_id.is_some()
    }

    /// Whether the port carries any neighbour discovery data.
    pub fn has_neighbor_discovery_data(&self) -> (r: bool)
        ensures
            r == (self.base.lldp_chassis_id is Some || self.base.lldp_port_id is Some
                || self.base.cdp_device_id is Some || self.base.cdp_port_id is Some),
    {
        self.has_lldp_data() || self.has_cdp_data()
    }

    /// What the far end published about its own port on this cable: a name, trimmed and never
    /// blank, and a MAC.
    pub fn advertised_far_end_port(&self) -> (r: AdvertisedFarEndPort)
        ensures
            opt_text(r.name) == far_end_port_name(self.base),
            opt_text(r.mac) == far_end_port_mac(self.base),
    {
        let named: Option<&str> = match &self.base.lldp_port_id {
            Some(p) => p.port_name(),
            None => None,
        };
        let chosen: Option<&str> = match named {
            Some(n) => Some(n),
            None => match &self.base.cdp_port_id {
                Some(c) => Some(c.as_str()),
                None => match &self.base.lldp_port_desc {
                    Some(d) => Some(d.as_str()),
                    None => None,
                },
            },
        };
        let name = match chosen {
            Some(n) => {
                let t = trim_str(n);
                if t.as_str().is_empty() {
                    None
                } else {
                    Some(t)
                }
            },
            None => None,
        };
        let mac = match &self.base.lldp_port_id {
            Some(p) => match p.port_mac() {
                Some(m) => Some(m.to_owned()),
                None => None,
            },
            None => None,
        };
        AdvertisedFarEndPort { name, mac }
    }

    /// Whether the row carries evidence that something is adjacent to this port.
    pub fn has_neighbor_evidence(&self) -> (r: bool)
        ensures
            r == neighbor_evidence(self.base),
    {
        self.base.lldp_chassis_id.is_some() || self.base.cdp_device_id.is_some()
            || self.base.has_single_fdb_mac()
    }

    /// Record the last scan that saw a neighbour on this port: this scan's time when it carried
    /// evidence, otherwise whatever the stored row says.
    pub fn stamp_neighbor_evidence(&mut self, existing: Option<&Self>)
        ensures
            final(self).base.neighbor_seen_at == (if neighbor_evidence(old(self).base) {
                Some(old(self).last_seen_at)
            } else {
                match existing {
                    Some(e) => e.base.neighbor_seen_at,
                    None => None,
                }
            }),
            final(self).id == old(self).id && final(self).last_seen_at == old(self).last_seen_at,
            same_port_facts_but_seen(old(self).base, final(self).base),
    {
        let stamp = if self.has_neighbor_evidence() {
            Some(self.last_seen_at)
        } else {
            match existing {
                Some(e) => e.base.neighbor_seen_at,
                None => None,
            }
        };
        self.base.neighbor_seen_at = stamp;
    }

    /// Keep the stored values for any group this scan did not read in full; a group read in
    /// full is authoritative, absence included.
    pub fn preserve_uncollected_data(&mut self, existing: &Self, collected: InterfaceDataComplete)
        ensures
            same_lldp(final(self).base, if collected.lldp { old(self).base } else { existing.base }),
            same_cdp(final(self).base, if collected.cdp { old(self).base } else { existing.base }),
            same_texts(
                final(self).base.fdb_macs,
                if collected.fdb { old(self).base.fdb_macs } else { existing.base.fdb_macs },
            ),
            same_vlans(
                final(self).base,
                if collected.vlan_membership { old(self).base } else { existing.base },
            ),
            same_port_facts(final(self).base, old(self).base),
            final(self).id == old(self).id,
    {
        if !collected.lldp {
            self.base.lldp_chassis_id = copy_chassis(&existing.base.lldp_chassis_id);
            self.base.lldp_port_id = copy_port(&existing.base.lldp_port_id);
            self.base.lldp_sys_name = copy_text(&existing.base.lldp_sys_name);
            self.base.lldp_port_desc = copy_text(&existing.base.lldp_port_desc);
            self.base.lldp_mgmt_addr = existing.base.lldp_mgmt_addr;
            self.base.lldp_sys_desc = copy_text(&existing.base.lldp_sys_desc);
        }
        if !collected.cdp {
            self.base.cdp_device_id = copy_text(&existing.base.cdp_device_id);
            self.base.cdp_port_id = copy_text(&existing.base.cdp_port_id);
            self.base.cdp_platform = copy_text(&existing.base.cdp_platform);
            self.base.cdp_address = existing.base.cdp_address;
        }
        if !collected.fdb {
            self.base.fdb_macs = copy_texts(&existing.base.fdb_macs);
        }
        if !collected.vlan_membership {
            self.base.native_vlan_id = existing.base.native_vlan_id;
            self.base.vlan_ids = copy_ids(&existing.base.vlan_ids);
        }
    }

    /// Drop an ifName or ifAlias the device reported blank, so absence is recorded as absence.
    pub fn normalize_blank_identity(&mut self)
        ensures
            blank_as_absent(old(self).base.if_name, final(self).base.if_name),
            blank_as_absent(old(self).base.if_alias, final(self).base.if_alias),
            final(self).base.if_descr == old(self).base.if_descr,
            final(self).base.if_index == old(self).base.if_index,
            final(self).base.host_id == old(self).base.host_id,
            final(self).id == old(self).id,
    {
        let blank_name = match &self.base.if_name {
            Some(n) => trim_str(n.as_str()).as_str().is_empty(),
            None => false,
        };
        if blank_name {
            self.base.if_name = None;
        }
        let blank_alias = match &self.base.if_alias {
            Some(a) => trim_str(a.as_str()).as_str().is_empty(),
            None => false,
        };
        if blank_alias {
            self.base.if_alias = None;
        }
    }

    /// Whether this row's remote port, if resolved, could only have been matched on a MAC: a
    /// MAC port id, or a single-address FDB port with no LLDP or CDP data.
    pub fn port_bound_by_mac(&self) -> (r: bool)
        ensures
            r == bound_by_mac(self.base),
    {
        if matches!(self.base.lldp_port_id, Some(LldpPortId::MacAddress(_))) {
            return true;
        }
        self.base.lldp_chassis_id.is_none() && self.base.cdp_device_id.is_none()
            && self.base.has_single_fdb_mac()
    }
}

/// Every field but `neighbor_seen_at` agrees.
pub open spec fn same_port_facts_but_seen(a: InterfaceBase, b: InterfaceBase) -> bool {
    a.host_id == b.host_id && a.neighbor == b.neighbor && same_lldp(a, b) && same_cdp(a, b)
        && same_texts(a.fdb_macs, b.fdb_macs) && same_vlans(a, b) && a.if_index == b.if_index
        && a.if_name == b.if_name && a.if_alias == b.if_alias && a.if_descr == b.if_descr
}

// ---------------------------------------------------------------------------------------------
// Whether a row has an identity worth resolving
// ---------------------------------------------------------------------------------------------

/// Whether an identifier has any content: a character that is not ASCII whitespace.
pub open spec fn resolvable_text(s: Seq<char>) -> bool {
    !all_pad(s, false)
}

/// What the ladder's chassis arm would look a row up by: the chassis identifier, or, when that
/// is blank, the system name, the arm's last rung. Nothing without a chassis id.
pub open spec fn chassis_identifier_of(b: InterfaceBase) -> Option<Seq<char>> {
    match b.lldp_chassis_id {
        None => None,
        Some(c) => if resolvable_text(chassis_identifier_text(c@)) {
            Some(chassis_identifier_text(c@))
        } else {
            opt_text(b.lldp_sys_name)
        },
    }
}

/// The chassis arm applies: there is a chassis id, and something resolvable to look it up by.
pub open spec fn chassis_arm_applies(b: InterfaceBase) -> bool {
    b.lldp_chassis_id is Some && (chassis_identifier_of(b) matches Some(id) && resolvable_text(id))
}

/// The CDP arm applies: a CDP device id with content.
pub open spec fn cdp_arm_applies(b: InterfaceBase) -> bool {
    b.cdp_device_id is Some && resolvable_text(b.cdp_device_id->0@)
}

/// Whether the row names something the resolution ladder could look up: one of the identity
/// columns (the chassis id, read through its arm's identifier, and the CDP device id) yields
/// an identifier with content.
pub open spec fn resolvable_identity(b: InterfaceBase) -> bool {
    (chassis_identifier_of(b) matches Some(id) && resolvable_text(id)) || (opt_text(
        b.cdp_device_id,
    ) matches Some(id) && resolvable_text(id))
}

/// Whether an identifier has any content, and so is worth a lookup. Padding is ASCII
/// whitespace and nothing else, the five characters the SQL twin trims by name.
pub fn identifier_is_resolvable(value: &str) -> (r: bool)
    ensures
        r == resolvable_text(value@),
{
    has_non_ascii_ws(value)
}

impl InterfaceBase {
    fn chassis_identifier(&self) -> (r: Option<String>)
        ensures
            opt_text(r) == chassis_identifier_of(*self),
    {
        match &self.lldp_chassis_id {
            None => None,
            Some(c) => {
                let identifier = c.identifier();
                if identifier_is_resolvable(identifier.as_str()) {
                    Some(identifier)
                } else {
                    copy_text(&self.lldp_sys_name)
                }
            },
        }
    }

    /// Whether this row names something the resolution ladder could look up: its chassis arm
    /// or its CDP arm applies.
    pub fn has_resolvable_identity(&self) -> (r: bool)
        ensures
            r == resolvable_identity(*self),
    {
        let by_chassis = match self.chassis_identifier() {
            Some(id) => identifier_is_resolvable(id.as_str()),
            None => false,
        };
        by_chassis || self.resolvable_cdp_device_id().is_some()
    }

    /// The LLDP chassis id, when the ladder's chassis arm has something to look up.
    pub fn resolvable_chassis_id(&self) -> (r: Option<&LldpChassisId>)
        ensures
            r is Some == chassis_arm_applies(*self),
            r matches Some(c) ==> self.lldp_chassis_id == Some(*c),
    {
        match &self.lldp_chassis_id {
            None => None,
            Some(c) => match self.chassis_identifier() {
                Some(id) => if identifier_is_resolvable(id.as_str()) {
                    Some(c)
                } else {
                    None
                },
                None => None,
            },
        }
    }

    /// The CDP device id, when it names something worth looking up.
    pub fn resolvable_cdp_device_id(&self) -> (r: Option<&str>)
        ensures
            r is Some == cdp_arm_applies(*self),
            r matches Some(id) ==> self.cdp_device_id->0@ == id@,
    {
        match &self.cdp_device_id {
            Some(id) => if identifier_is_resolvable(id.as_str()) {
                Some(id.as_str())
            } else {
                None
            },
            None => None,
        }
    }

    /// A bridge-FDB port that learned exactly one address.
    pub fn has_single_fdb_mac(&self) -> (r: bool)
        ensures
            r == single_fdb_mac(*self),
    {
        match &self.fdb_macs {
            Some(macs) => macs.len() == 1,
            None => false,
        }
    }
}

/// Some arm of the resolution ladder applies to exactly the rows the identity predicate
/// admits, so no admitted row falls past every arm.
pub proof fn lemma_an_arm_applies_exactly_when_admitted(b: InterfaceBase)
    ensures
        resolvable_identity(b) == (chassis_arm_applies(b) || cdp_arm_applies(b)),
{
}

/// A system name is only the chassis arm's last rung: with no chassis id it admits nothing.
pub proof fn lemma_a_system_name_alone_is_no_identity(b: InterfaceBase)
    requires
        b.lldp_chassis_id is None,
        b.cdp_device_id is None,
    ensures
        !resolvable_identity(b),
{
}

// ---------------------------------------------------------------------------------------------
// The same predicate as SQL
// ---------------------------------------------------------------------------------------------

/// One column that can carry a neighbour identity.
pub struct IdentityColumn {
    /// The column the identity is anchored on.
    pub column: &'static str,
}

/// Every column a neighbour identity can live in, in the order the SQL tests them: the LLDP
/// chassis id (read through its arm's identifier) and the CDP device id.
pub fn identity_columns() -> (r: Vec<IdentityColumn>)
    ensures
        r@.len() == 2,
        r@[0].column@ == "lldp_chassis_id"@,
        r@[1].column@ == "cdp_device_id"@,
{
    vec![IdentityColumn { column: "lldp_chassis_id" }, IdentityColumn { column: "cdp_device_id" }]
}

/// The characters [`identifier_is_resolvable`] treats as padding, as a Postgres escape string:
/// space, tab, line feed, carriage return and form feed, exactly the ASCII whitespace.
pub const SQL_PADDING: &'static str = r"E' \t\n\r\x0C'";

/// `coalesce(btrim(<identifier>, <padding>), '') <> ''`.
pub open spec fn sql_resolvable_text(identifier: Seq<char>) -> Seq<char> {
    "coalesce(btrim("@ + identifier + ", "@ + SQL_PADDING@ + "), '') <> ''"@
}

/// The chassis arm's identifier as SQL over the JSONB column: the trimmed `value` unless blank,
/// else the system name when a chassis id is present at all.
pub open spec fn sql_chassis_text(chassis: Seq<char>, sys_name: Seq<char>) -> Seq<char> {
    "coalesce(nullif(btrim("@ + chassis + " ->> 'value', "@ + SQL_PADDING@
        + "), ''), case when "@ + chassis + " ->> 'subtype' is not null then "@ + sys_name
        + " end)"@
}

/// The whole predicate as SQL, given the qualified chassis, system-name and CDP columns.
pub open spec fn sql_identity_text(chassis: Seq<char>, sys_name: Seq<char>, cdp: Seq<char>) -> Seq<
    char,
> {
    "("@ + sql_resolvable_text(sql_chassis_text(chassis, sys_name)) + " OR "@ + sql_resolvable_text(
        cdp,
    ) + ")"@
}

fn push_sql_resolvable(out: &mut Vec<char>, identifier: &str)
    ensures
        final(out)@ == old(out)@ + sql_resolvable_text(identifier@),
{
    extend_str(out, "coalesce(btrim(");
    extend_str(out, identifier);
    extend_str(out, ", ");
    extend_str(out, SQL_PADDING);
    extend_str(out, "), '') <> ''");
    assert(out@ =~= old(out)@ + sql_resolvable_text(identifier@));
}

/// The SQL twin of [`identifier_is_resolvable`], over an expression yielding the identifier.
pub fn sql_identifier_is_resolvable(identifier: &str) -> (r: String)
    ensures
        r@ == sql_resolvable_text(identifier@),
{
    let mut out: Vec<char> = Vec::new();
    push_sql_resolvable(&mut out, identifier);
    assert(out@ =~= sql_resolvable_text(identifier@));
    string_of(out.as_slice())
}

fn sql_chassis_identifier(chassis: &str, sys_name: &str) -> (r: String)
    ensures
        r@ == sql_chassis_text(chassis@, sys_name@),
{
    let mut out: Vec<char> = Vec::new();
    extend_str(&mut out, "coalesce(nullif(btrim(");
    extend_str(&mut out, chassis);
    extend_str(&mut out, " ->> 'value', ");
    extend_str(&mut out, SQL_PADDING);
    extend_str(&mut out, "), ''), case when ");
    extend_str(&mut out, chassis);
    extend_str(&mut out, " ->> 'subtype' is not null then ");
    extend_str(&mut out, sys_name);
    extend_str(&mut out, " end)");
    assert(out@ =~= sql_chassis_text(chassis@, sys_name@));
    string_of(out.as_slice())
}

/// The whole predicate as a SQL boolean, given a way to qualify a bare column name. `qualify`
/// is called on `lldp_chassis_id`, `lldp_sys_name` and `cdp_device_id`, in that order.
pub fn sql_has_resolvable_identity<F: Fn(&str) -> String>(qualify: F) -> (r: String)
    requires
        call_requires(qualify, ("lldp_chassis_id",)),
        call_requires(qualify, ("lldp_sys_name",)),
        call_requires(qualify, ("cdp_device_id",)),
    ensures
        exists|chassis: String, sys_name: String, cdp: String|
            call_ensures(qualify, ("lldp_chassis_id",), chassis) && call_ensures(
                qualify,
                ("lldp_sys_name",),
                sys_name,
            ) && call_ensures(qualify, ("cdp_device_id",), cdp) && r@ == sql_identity_text(
                chassis@,
                sys_name@,
                cdp@,
            ),
{
    let chassis = qualify("lldp_chassis_id");
    let sys_name = qualify("lldp_sys_name");
    let cdp = qualify("cdp_device_id");
    let chassis_identifier = sql_chassis_identifier(chassis.as_str(), sys_name.as_str());
    let mut out: Vec<char> = Vec::new();
    extend_str(&mut out, "(");
    push_sql_resolvable(&mut out, chassis_identifier.as_str());
    extend_str(&mut out, " OR ");
    push_sql_resolvable(&mut out, cdp.as_str());
    extend_str(&mut out, ")");
    assert(out@ =~= sql_identity_text(chassis@, sys_name@, cdp@));
    string_of(out.as_slice())
}

/// The negation of [`sql_has_resolvable_identity`]: rows with no identity to resolve.
pub fn sql_has_no_resolvable_identity<F: Fn(&str) -> String>(qualify: F) -> (r: String)
    requires
        call_requires(qualify, ("lldp_chassis_id",)),
        call_requires(qualify, ("lldp_sys_name",)),
        call_requires(qualify, ("cdp_device_id",)),
    ensures
        exists|chassis: String, sys_name: String, cdp: String|
            call_ensures(qualify, ("lldp_chassis_id",), chassis) && call_ensures(
                qualify,
                ("lldp_sys_name",),
                sys_name,
            ) && call_ensures(qualify, ("cdp_device_id",), cdp) && r@ == "NOT "@
                + sql_identity_text(chassis@, sys_name@, cdp@),
{
    let inner = sql_has_resolvable_identity(qualify);
    let mut out: Vec<char> = Vec::new();
    extend_str(&mut out, "NOT ");
    extend_str(&mut out, inner.as_str());
    string_of(out.as_slice())
}

} // verus!
