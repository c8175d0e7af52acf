//! What a controller (UniFi, HPE Instant On) knows about a device or client it manages, and how
//! that folds into a host: the administrator's name through the name ranking, every other field
//! first-write-wins, and a hostname the controller only heard never claimed as read.

use vstd::prelude::*;
use crate::hosts::{
    AttributeSource, Attributed, EntitySource, Host, HostBase, HostName, applied_name, attributed_text,
    name_rank, name_text, non_blank_opt,
};
use crate::lldp::{opt_text, canonical_mac, canonical_mac_spec};
use crate::net::{IpAddress, parse_ip, parse_ip_spec};
use crate::text::{trim_str, copy_text, trim_spec};
use crate::clock::{now_micros, new_uuid};

verus! {

broadcast use vstd::string::group_string_axioms;

/// The identity fields a controller reports for one device or client. Every field must be
/// written where one is built, so a missing name is visible there.
#[derive(Debug, Clone, PartialEq, Eq)]
pub struct ControllerIdentity {
    /// The name a person assigned in the controller.
    pub name: Option<String>,
    /// A hostname the controller observed rather than one a person chose.
    pub hostname: Option<String>,
    /// LLDP chassis id, canonicalised the same way the SNMP scan writes it.
    pub chassis_id: Option<String>,
    pub manufacturer: Option<String>,
    pub model: Option<String>,
    pub serial_number: Option<String>,
    pub sys_descr: Option<String>,
}

/// A controller field as it is used: trimmed, and absent when blank.
pub open spec fn reported(v: Option<String>) -> Option<Seq<char>> {
    non_blank_opt(opt_text(v))
}

/// First-write-wins: the stored value when there is one, else the reported one.
pub open spec fn first_write(stored: Option<Seq<char>>, reported: Option<Seq<char>>) -> Option<Seq<char>> {
    if stored is Some {
        stored
    } else {
        reported
    }
}

/// The stored name after a controller's name (if any) is offered at integration rank.
pub open spec fn named_by_controller(current: HostName, name: Option<Seq<char>>, after: HostName) -> bool {
    match name {
        None => after == current,
        Some(n) => if name_rank(current) <= 3 {
            after is Integration && name_text(after) == n
        } else {
            after == current
        },
    }
}

fn blank_to_none(v: &Option<String>) -> (r: Option<String>)
    ensures
        opt_text(r) == reported(*v),
{
    match v {
        Some(s) => {
            let t = trim_str(s.as_str());
            if t.as_str().is_empty() {
                None
            } else {
                Some(t)
            }
        },
        None => None,
    }
}

/// The host a scan is building, as the scan submits it.
#[derive(Debug, Clone)]
pub struct HostData {
    pub host: Host,
}

impl HostData {
    pub fn new(host: Host) -> (r: Self)
        ensures
            r.host == host,
    {
        HostData { host }
    }

    /// Fill the hostname from a source that heard it rather than read it: only when the scan
    /// has none, and then marked as not authoritative for the field.
    pub fn with_reported_hostname(&mut self, hostname: String)
        ensures
            old(self).host.base.hostname is None ==> final(self).host.base.hostname == Some(hostname)
                && !final(self).host.base.hostname_authoritative,
            old(self).host.base.hostname is Some ==> final(self).host.base.hostname == old(
                self,
            ).host.base.hostname && final(self).host.base.hostname_authoritative == old(
                self,
            ).host.base.hostname_authoritative,
            final(self).host.base.name == old(self).host.base.name,
            final(self).host.base.sys_name == old(self).host.base.sys_name,
            final(self).host.base.chassis_id == old(self).host.base.chassis_id,
            final(self).host.base.manufacturer == old(self).host.base.manufacturer,
            final(self).host.base.model == old(self).host.base.model,
            final(self).host.base.serial_number == old(self).host.base.serial_number,
            final(self).host.base.sys_descr == old(self).host.base.sys_descr,
            old(self).host.base.hostname is None ==> final(self).host == (Host {
                base: HostBase {
                    hostname: Some(hostname),
                    hostname_authoritative: false,
                    ..old(self).host.base
                },
                ..old(self).host
            }),
            old(self).host.base.hostname is Some ==> *final(self) == *old(self),
    {
        if self.host.base.hostname.is_none() {
            self.host.base.hostname = Some(hostname);
            self.host.base.hostname_authoritative = false;
        }
    }

    /// Offer a name to the host's name ranking.
    pub fn apply_name(&mut self, name: HostName)
        ensures
            final(self).host.base.name == applied_name(old(self).host.base.name, name),
            final(self).host.base.hostname == old(self).host.base.hostname,
            final(self).host.base.hostname_authoritative == old(self).host.base.hostname_authoritative,
            final(self).host.base.sys_name == old(self).host.base.sys_name,
            final(self).host.base.chassis_id == old(self).host.base.chassis_id,
            final(self).host.base.manufacturer == old(self).host.base.manufacturer,
            final(self).host.base.model == old(self).host.base.model,
            final(self).host.base.serial_number == old(self).host.base.serial_number,
            final(self).host.base.sys_descr == old(self).host.base.sys_descr,
            final(self).host == (Host {
                base: HostBase { name: applied_name(old(self).host.base.name, name), ..old(self).host.base },
                ..old(self).host
            }),
    {
        self.host.base.apply_name(name);
    }
}

/// `stored` after a first-write-wins offer of `value`.
fn fill_text(stored: &mut Option<String>, value: &Option<String>)
    ensures
        opt_text(*final(stored)) == first_write(opt_text(*old(stored)), opt_text(*value)),
        (*old(stored)) is Some ==> *final(stored) == *old(stored),
{
    if stored.is_none() {
        match value {
            Some(v) => {
                *stored = Some(v.clone());
            },
            None => {},
        }
    }
}

/// `stored` after a first-write-wins offer of `value`, attributed to the controller.
fn fill_attributed(stored: &mut Option<Attributed>, value: &Option<String>)
    ensures
        attributed_text(*final(stored)) == first_write(attributed_text(*old(stored)), opt_text(*value)),
        (*old(stored)) is Some ==> *final(stored) == *old(stored),
        (*old(stored)) is None && value is Some ==> (*final(stored))->0.source == AttributeSource::Integration,
{
    if stored.is_none() {
        match value {
            Some(v) => {
                *stored = Some(Attributed::new(v.clone(), AttributeSource::Integration));
            },
            None => {},
        }
    }
}

/// Whether a controller reported nothing usable: every field absent or blank.
pub open spec fn identity_blank(c: ControllerIdentity) -> bool {
    &&& reported(c.name) is None && reported(c.hostname) is None && reported(c.chassis_id) is None
    &&& reported(c.manufacturer) is None && reported(c.model) is None
    &&& reported(c.serial_number) is None && reported(c.sys_descr) is None
}

impl ControllerIdentity {
    /// Every field trimmed, and a blank one absent: controllers return `""` for a field nobody
    /// filled in, and that must not displace something real.
    pub fn normalized(&self) -> (r: Self)
        ensures
            opt_text(r.name) == reported(self.name),
            opt_text(r.hostname) == reported(self.hostname),
            opt_text(r.chassis_id) == reported(self.chassis_id),
            opt_text(r.manufacturer) == reported(self.manufacturer),
            opt_text(r.model) == reported(self.model),
            opt_text(r.serial_number) == reported(self.serial_number),
            opt_text(r.sys_descr) == reported(self.sys_descr),
    {
        ControllerIdentity {
            name: blank_to_none(&self.name),
            hostname: blank_to_none(&self.hostname),
            chassis_id: blank_to_none(&self.chassis_id),
            manufacturer: blank_to_none(&self.manufacturer),
            model: blank_to_none(&self.model),
            serial_number: blank_to_none(&self.serial_number),
            sys_descr: blank_to_none(&self.sys_descr),
        }
    }

    /// Fold this identity into the host being scanned. The hostname fills only an empty field,
    /// and then as reported rather than read; the name is offered to the name ranking at
    /// integration rank and mirrored into `sysName`; every other field is first-write-wins, so a
    /// prior SNMP pass in the same scan keeps its values.
    pub fn enrich(&self, host_data: &mut HostData)
        ensures
            ({
                let before = old(host_data).host.base;
                let after = final(host_data).host.base;
                &&& (before.hostname is None && reported(self.hostname) is Some) ==> (opt_text(
                    after.hostname,
                ) == reported(self.hostname) && !after.hostname_authoritative)
                &&& !(before.hostname is None && reported(self.hostname) is Some) ==> (
                after.hostname == before.hostname && after.hostname_authoritative
                    == before.hostname_authoritative)
                &&& attributed_text(after.sys_name) == first_write(
                    attributed_text(before.sys_name),
                    reported(self.name),
                )
                &&& named_by_controller(before.name, reported(self.name), after.name)
                &&& attributed_text(after.chassis_id) == first_write(
                    attributed_text(before.chassis_id),
                    reported(self.chassis_id),
                )
                &&& opt_text(after.manufacturer) == first_write(
                    opt_text(before.manufacturer),
                    reported(self.manufacturer),
                )
                &&& opt_text(after.model) == first_write(opt_text(before.model), reported(self.model))
                &&& opt_text(after.serial_number) == first_write(
                    opt_text(before.serial_number),
                    reported(self.serial_number),
                )
                &&& opt_text(after.sys_descr) == first_write(
                    opt_text(before.sys_descr),
                    reported(self.sys_descr),
                )
                &&& before.sys_name is Some ==> after.sys_name == before.sys_name
                &&& before.chassis_id is Some ==> after.chassis_id == before.chassis_id
                &&& (before.sys_name is None && after.sys_name is Some) ==> after.sys_name->0.source
                    == AttributeSource::Integration
                &&& (before.chassis_id is None && after.chassis_id is Some) ==> after.chassis_id->0.source
                    == AttributeSource::Integration
                &&& before.manufacturer is Some ==> after.manufacturer == before.manufacturer
                &&& before.model is Some ==> after.model == before.model
                &&& before.serial_number is Some ==> after.serial_number == before.serial_number
                &&& before.sys_descr is Some ==> after.sys_descr == before.sys_descr
                &&& after.network_id == before.network_id
                &&& after.sys_object_id == before.sys_object_id
                &&& after.sys_location == before.sys_location
                &&& after.sys_contact == before.sys_contact
                &&& after.management_url == before.management_url
                &&& after.source == before.source
                &&& after.description == before.description
                &&& after.hidden == before.hidden
                &&& after.tags == before.tags
            }),
            final(host_data).host.id == old(host_data).host.id,
            final(host_data).host.created_at == old(host_data).host.created_at,
            final(host_data).host.updated_at == old(host_data).host.updated_at,
            final(host_data).host.last_seen_at == old(host_data).host.last_seen_at,
            identity_blank(*self) ==> final(host_data).host == old(host_data).host,
    {
        let n = self.normalized();
        proof {
            crate::hosts::lemma_non_blank_is_not_blank(opt_text(self.name));
        }
        if let Some(hostname) = &n.hostname {
            host_data.with_reported_hostname(hostname.clone());
        }
        fill_attributed(&mut host_data.host.base.sys_name, &n.name);
        if let Some(name) = &n.name {
            host_data.apply_name(HostName::Integration(name.clone()));
        }
        fill_attributed(&mut host_data.host.base.chassis_id, &n.chassis_id);
        fill_text(&mut host_data.host.base.manufacturer, &n.manufacturer);
        fill_text(&mut host_data.host.base.model, &n.model);
        fill_text(&mut host_data.host.base.serial_number, &n.serial_number);
        fill_text(&mut host_data.host.base.sys_descr, &n.sys_descr);
    }

    /// Offer the hostname, then the assigned name, to the name ranking.
    fn apply_names(base: &mut HostBase, name: &Option<String>, hostname: &Option<String>)
        ensures
            final(base).hostname == old(base).hostname,
            final(base).hostname_authoritative == old(base).hostname_authoritative,
            final(base).sys_name == old(base).sys_name,
            final(base).chassis_id == old(base).chassis_id,
            final(base).network_id == old(base).network_id,
            final(base).manufacturer == old(base).manufacturer,
            final(base).model == old(base).model,
            final(base).serial_number == old(base).serial_number,
            final(base).sys_descr == old(base).sys_descr,
            final(base).source == old(base).source,
            *final(base) == (HostBase { name: final(base).name, ..*old(base) }),
            final(base).name == (match *name {
                Some(n) => applied_name(
                    match *hostname {
                        Some(h) => applied_name(old(base).name, HostName::Hostname(h)),
                        None => old(base).name,
                    },
                    HostName::Integration(n),
                ),
                None => match *hostname {
                    Some(h) => applied_name(old(base).name, HostName::Hostname(h)),
                    None => old(base).name,
                },
            }),
    {
        if let Some(hostname) = hostname {
            base.apply_name(HostName::Hostname(hostname.clone()));
        }
        if let Some(name) = name {
            base.apply_name(HostName::Integration(name.clone()));
        }
    }

    /// A host for a device or client the controller reports but the scan never reached: the
    /// name mirrored into `sysName`, the hostname marked as reported rather than read, and the
    /// hostname and then the name offered to the name ranking; its id is `id`, and it is created,
    /// updated and last seen at `now`.
    pub fn into_host_at(&self, network_id: u128, id: u128, now: i64) -> (r: Host)
        ensures
            r.id == id,
            r.created_at == now && r.updated_at == now && r.last_seen_at == now,
            controller_host(*self, network_id, r),
    {
        let n = self.normalized();
        let mut sys_name: Option<Attributed> = None;
        fill_attributed(&mut sys_name, &n.name);
        let mut chassis_id: Option<Attributed> = None;
        fill_attributed(&mut chassis_id, &n.chassis_id);
        let mut host = Host::stamped(
            HostBase {
                network_id,
                name: HostName::Unnamed,
                hostname: copy_text(&n.hostname),
                hostname_authoritative: false,
                sys_name,
                chassis_id,
                manufacturer: copy_text(&n.manufacturer),
                model: copy_text(&n.model),
                serial_number: copy_text(&n.serial_number),
                sys_descr: copy_text(&n.sys_descr),
                sys_object_id: None,
                sys_location: None,
                sys_contact: None,
                management_url: None,
                source: EntitySource::Discovery,
                description: None,
                hidden: false,
                tags: Vec::new(),
            },
            id,
            now,
        );
        proof {
            crate::hosts::lemma_non_blank_is_not_blank(opt_text(self.name));
            crate::hosts::lemma_non_blank_is_not_blank(opt_text(self.hostname));
        }
        Self::apply_names(&mut host.base, &n.name, &n.hostname);
        host
    }

    /// The same host with a fresh id, created, updated and last seen now; nothing when the
    /// machine's clock cannot say what now is (see [`now_micros`]).
    pub fn into_host(&self, network_id: u128) -> (r: Option<Host>)
        ensures
            r matches Some(h) ==> {
                &&& h.created_at == h.updated_at && h.updated_at == h.last_seen_at && h.created_at >= 0
                &&& controller_host(*self, network_id, h)
            },
    {
        match now_micros() {
            Some(now) => Some(self.into_host_at(network_id, new_uuid(), now)),
            None => None,
        }
    }
}

/// Whether `h` is the host a controller reporting `c` makes on network `network_id`: the name
/// mirrored into `sysName`, the hostname marked as reported rather than read, the other
/// reported fields carried over, nothing the controller does not report, and the hostname and
/// then the name offered to the name ranking.
pub open spec fn controller_host(c: ControllerIdentity, network_id: u128, h: Host) -> bool {
    &&& h.base.network_id == network_id
    &&& h.base.source == EntitySource::Discovery
    &&& !h.base.hostname_authoritative
    &&& opt_text(h.base.hostname) == reported(c.hostname)
    &&& attributed_text(h.base.sys_name) == reported(c.name)
    &&& (h.base.sys_name matches Some(a) ==> a.source == AttributeSource::Integration)
    &&& attributed_text(h.base.chassis_id) == reported(c.chassis_id)
    &&& (h.base.chassis_id matches Some(a) ==> a.source == AttributeSource::Integration)
    &&& opt_text(h.base.manufacturer) == reported(c.manufacturer)
    &&& opt_text(h.base.model) == reported(c.model)
    &&& opt_text(h.base.serial_number) == reported(c.serial_number)
    &&& opt_text(h.base.sys_descr) == reported(c.sys_descr)
    &&& h.base.sys_object_id is None && h.base.sys_location is None
    &&& h.base.sys_contact is None && h.base.management_url is None
    &&& h.base.description is None && !h.base.hidden && h.base.tags@.len() == 0
    &&& match reported(c.name) {
        Some(n) => h.base.name is Integration && name_text(h.base.name) == n,
        None => match reported(c.hostname) {
            Some(n) => h.base.name is Hostname && name_text(h.base.name) == n,
            None => h.base.name == HostName::Unnamed,
        },
    }
}

// ---------------------------------------------------------------------------------------------
// Clients a controller reports
// ---------------------------------------------------------------------------------------------

/// A known subnet, as placing an address needs it: its id and its CIDR block.
#[derive(Debug, Clone, Copy, PartialEq, Eq, Structural)]
pub struct KnownSubnet {
    pub id: u128,
    /// The block's address.
    pub network: IpAddress,
    /// How many leading bits of an address the block fixes.
    pub prefix_len: u8,
}

/// An IPv4 address as its 32-bit value.
pub open spec fn v4_value(a: u8, b: u8, c: u8, d: u8) -> u32 {
    ((a as u32) << 24u32) | ((b as u32) << 16u32) | ((c as u32) << 8u32) | (d as u32)
}

/// An IPv6 address as its 128-bit value.
pub open spec fn v6_value(s: (u16, u16, u16, u16, u16, u16, u16, u16)) -> u128 {
    ((s.0 as u128) << 112u128) | ((s.1 as u128) << 96u128) | ((s.2 as u128) << 80u128) | ((s.3 as u128)
        << 64u128) | ((s.4 as u128) << 48u128) | ((s.5 as u128) << 32u128) | ((s.6 as u128) << 16u128)
        | (s.7 as u128)
}

/// Whether a block holds an address: the same family, and the same leading `prefix_len` bits.
/// A prefix longer than the family's address is no block.
pub open spec fn block_contains(network: IpAddress, prefix_len: u8, ip: IpAddress) -> bool {
    match (network, ip) {
        (IpAddress::V4(a, b, c, d), IpAddress::V4(e, f, g, h)) => prefix_len <= 32 && (prefix_len == 0
            || v4_value(a, b, c, d) >> ((32 - prefix_len) as u32) == v4_value(e, f, g, h) >> ((32
            - prefix_len) as u32)),
        (IpAddress::V6(a, b, c, d, e, f, g, h), IpAddress::V6(i, j, k, l, m, n, o, p)) => prefix_len
            <= 128 && (prefix_len == 0 || v6_value((a, b, c, d, e, f, g, h)) >> ((128 - prefix_len) as u128)
            == v6_value((i, j, k, l, m, n, o, p)) >> ((128 - prefix_len) as u128)),
        _ => false,
    }
}

fn contains(subnet: &KnownSubnet, ip: IpAddress) -> (r: bool)
    ensures
        r == block_contains(subnet.network, subnet.prefix_len, ip),
{
    let p = subnet.prefix_len;
    match (subnet.network, ip) {
        (IpAddress::V4(a, b, c, d), IpAddress::V4(e, f, g, h)) => {
            if p > 32 {
                false
            } else if p == 0 {
                true
            } else {
                let n = ((a as u32) << 24u32) | ((b as u32) << 16u32) | ((c as u32) << 8u32) | (d as u32);
                let x = ((e as u32) << 24u32) | ((f as u32) << 16u32) | ((g as u32) << 8u32) | (h as u32);
                let shift = (32 - p) as u32;
                n >> shift == x >> shift
            }
        },
        (IpAddress::V6(a, b, c, d, e, f, g, h), IpAddress::V6(i, j, k, l, m, n, o, q)) => {
            if p > 128 {
                false
            } else if p == 0 {
                true
            } else {
                let nv = ((a as u128) << 112u128) | ((b as u128) << 96u128) | ((c as u128) << 80u128) | ((
                d as u128) << 64u128) | ((e as u128) << 48u128) | ((f as u128) << 32u128) | ((g as u128)
                    << 16u128) | (h as u128);
                let xv = ((i as u128) << 112u128) | ((j as u128) << 96u128) | ((k as u128) << 80u128) | ((
                l as u128) << 64u128) | ((m as u128) << 48u128) | ((n as u128) << 32u128) | ((o as u128)
                    << 16u128) | (q as u128);
                let shift = (128 - p) as u128;
                nv >> shift == xv >> shift
            }
        },
        _ => false,
    }
}

/// The first subnet from `k` on whose block holds `ip`.
pub open spec fn first_subnet(subnets: Seq<KnownSubnet>, ip: IpAddress, k: int) -> Option<int>
    decreases subnets.len() - k,
{
    if k < 0 || k >= subnets.len() {
        None
    } else if block_contains(subnets[k].network, subnets[k].prefix_len, ip) {
        Some(k)
    } else {
        first_subnet(subnets, ip, k + 1)
    }
}

fn find_subnet(subnets: &[KnownSubnet], ip: IpAddress) -> (r: Option<usize>)
    ensures
        match r {
            Some(k) => k < subnets@.len() && first_subnet(subnets@, ip, 0) == Some(k as int),
            None => first_subnet(subnets@, ip, 0) is None,
        },
{
    let mut k: usize = 0;
    while k < subnets.len()
        invariant
            k <= subnets@.len(),
            first_subnet(subnets@, ip, 0) == first_subnet(subnets@, ip, k as int),
        decreases subnets.len() - k,
    {
        if contains(&subnets[k], ip) {
            return Some(k);
        }
        k = k + 1;
    }
    None
}

/// The address a controller-reported client is created with: on the subnet that holds it, on
/// no host yet (the server assigns one), with its MAC in canonical form where it reported one.
#[derive(Debug, Clone, PartialEq, Eq)]
pub struct ClientAddress {
    pub network_id: u128,
    pub host_id: u128,
    pub subnet_id: u128,
    pub ip_address: IpAddress,
    pub mac_address: Option<String>,
    pub name: Option<String>,
    pub position: u32,
}

/// A client a controller reports, placed on a known subnet.
#[derive(Debug, Clone, PartialEq, Eq)]
pub struct MappedClient {
    pub identity: ControllerIdentity,
    pub ip_address: ClientAddress,
    pub ip: IpAddress,
}

/// The address a client reported, as read: trimmed, then parsed.
pub open spec fn client_ip(ip: Option<&str>) -> Option<IpAddress> {
    match ip {
        Some(t) => parse_ip_spec(trim_spec(t@)),
        None => None,
    }
}

impl MappedClient {
    /// Place a reported client on a known subnet, or skip it: `None` when the address is
    /// missing, unparseable, or outside every known subnet, since a host created without a
    /// placeable address would be minted afresh on every scan.
    pub fn new(
        identity: ControllerIdentity,
        ip: Option<&str>,
        mac: Option<&str>,
        network_id: u128,
        subnets: &[KnownSubnet],
    ) -> (r: Option<Self>)
        ensures
            r is Some <==> (client_ip(ip) is Some && first_subnet(subnets@, client_ip(ip)->0, 0) is Some),
            r matches Some(c) ==> {
                &&& c.identity == identity
                &&& c.ip == client_ip(ip)->0
                &&& c.ip_address.ip_address == c.ip
                &&& c.ip_address.subnet_id == subnets@[first_subnet(subnets@, c.ip, 0)->0].id
                &&& c.ip_address.network_id == network_id
                &&& c.ip_address.host_id == 0
                &&& opt_text(c.ip_address.mac_address) == match mac {
                    Some(m) => canonical_mac_spec(m@),
                    None => None,
                }
                &&& c.ip_address.name is None
                &&& c.ip_address.position == 0
            },
    {
        let text = match ip {
            Some(t) => t,
            None => return None,
        };
        let trimmed = trim_str(text);
        let parsed = match parse_ip(trimmed.as_str()) {
            Some(a) => a,
            None => return None,
        };
        let idx = match find_subnet(subnets, parsed) {
            Some(i) => i,
            None => return None,
        };
        let mac_address = match mac {
            Some(m) => canonical_mac(m),
            None => None,
        };
        Some(MappedClient {
            identity,
            ip_address: ClientAddress {
                network_id,
                host_id: 0,
                subnet_id: subnets[idx].id,
                ip_address: parsed,
                mac_address,
                name: None,
                position: 0,
            },
            ip: parsed,
        })
    }
}

} // verus!
