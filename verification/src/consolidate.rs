//! Merging what a discovery observed into a stored host, and consolidating one host into
//! another: which addresses and ports collide and which move, how service bindings follow them,
//! and how credential assignments combine.
//!
//! The rows are read and written by the caller; the decisions are made here.

use vstd::prelude::*;
use crate::hosts::{
    Attributed, EntitySource, Host, HostBase, HostName, applied_name, attributed_text, name_text,
    name_rank, name_key, non_blank_opt,
};
use crate::lldp::opt_text;
use crate::net::IpAddress;
use crate::text::{copy_text, trim_spec, trim_str, str_eq};

verus! {

broadcast use vstd::string::group_string_axioms;

// ---------------------------------------------------------------------------------------------
// The order hosts are matched in
// ---------------------------------------------------------------------------------------------

/// Whether `a` comes no later than `b` when hosts are matched: the older first, and of two
/// created together the lower id, so that "first match wins" never depends on the order the
/// database happened to return.
pub open spec fn not_later(a: Host, b: Host) -> bool {
    a.created_at < b.created_at || (a.created_at == b.created_at && a.id <= b.id)
}

/// The hosts a match is looked for among, oldest first with the id breaking ties: the same
/// hosts, in that order.
pub fn oldest_first(hosts: Vec<Host>) -> (r: Vec<Host>)
    ensures
        r@.to_multiset() == hosts@.to_multiset(),
        forall|i: int, j: int| 0 <= i < j < r@.len() ==> not_later(#[trigger] r@[i], #[trigger] r@[j]),
{
    broadcast use vstd::seq_lib::group_to_multiset_ensures;
    broadcast use vstd::multiset::group_multiset_axioms;

    let ghost original = hosts@;
    let mut rest = hosts;
    let mut out: Vec<Host> = Vec::new();
    assert(out@.to_multiset().add(rest@.to_multiset()) =~= original.to_multiset());
    while rest.len() > 0
        invariant
            out@.to_multiset().add(rest@.to_multiset()) == original.to_multiset(),
            forall|i: int, j: int| 0 <= i < j < out@.len() ==> not_later(#[trigger] out@[i], #[trigger] out@[j]),
            forall|i: int, j: int|
                0 <= i < out@.len() && 0 <= j < rest@.len() ==> not_later(#[trigger] out@[i], #[trigger] rest@[j]),
        decreases rest.len(),
    {
        let mut m: usize = 0;
        let mut k: usize = 1;
        while k < rest.len()
            invariant
                0 < rest@.len(),
                m < rest@.len(),
                1 <= k <= rest@.len(),
                forall|j: int| 0 <= j < k ==> not_later(rest@[m as int], #[trigger] rest@[j]),
            decreases rest.len() - k,
        {
            if rest[k].created_at < rest[m].created_at || (rest[k].created_at == rest[m].created_at
                && rest[k].id < rest[m].id) {
                m = k;
            }
            k = k + 1;
        }
        let ghost before_rest = rest@;
        let ghost before_out = out@;
        let h = rest.remove(m);
        proof {
            before_rest.to_multiset_ensures();
            before_out.to_multiset_ensures();
            assert(before_rest[m as int] == h);
            assert(before_rest.contains(h));
            assert(before_rest.to_multiset().count(h) > 0);
            assert(rest@ == before_rest.remove(m as int));
            assert(before_rest.remove(m as int).to_multiset() =~= before_rest.to_multiset().remove(
                before_rest[m as int],
            ));
        }
        out.push(h);
        proof {
            assert(out@ =~= before_out.push(h));
            assert(out@.to_multiset() =~= before_out.to_multiset().insert(h));
            assert(out@.to_multiset().add(rest@.to_multiset()) =~= before_out.to_multiset().add(
                before_rest.to_multiset(),
            ));
            assert forall|i: int, j: int| 0 <= i < j < out@.len() implies not_later(
                #[trigger] out@[i],
                #[trigger] out@[j],
            ) by {
                if j == out@.len() - 1 {
                    assert(before_rest[m as int] == h);
                }
            }
            assert forall|i: int, j: int|
                0 <= i < out@.len() && 0 <= j < rest@.len() implies not_later(
                #[trigger] out@[i],
                #[trigger] rest@[j],
            ) by {
                let jj = if j < m { j } else { j + 1 };
                assert(rest@[j] == before_rest[jj]);
                if i == out@.len() - 1 {
                    assert(not_later(before_rest[m as int], before_rest[jj]));
                } else {
                    assert(not_later(before_out[i], before_rest[jj]));
                }
            }
        }
    }
    assert(rest@.to_multiset() =~= vstd::multiset::Multiset::empty());
    assert(out@.to_multiset().add(rest@.to_multiset()) =~= out@.to_multiset());
    out
}

// ---------------------------------------------------------------------------------------------
// Merging an observation into a stored host
// ---------------------------------------------------------------------------------------------

/// The hostname an observation offers: trimmed, and nothing when blank.
pub open spec fn offered_hostname(incoming: HostBase) -> Option<Seq<char>> {
    non_blank_opt(opt_text(incoming.hostname))
}

/// The stored hostname after an observation: the offered one when the observation owns the
/// field (it read the name itself, or nothing non-blank is stored), otherwise the stored one.
pub open spec fn merged_hostname(stored: HostBase, incoming: HostBase) -> Option<Seq<char>> {
    match offered_hostname(incoming) {
        Some(h) => if incoming.hostname_authoritative || non_blank_opt(opt_text(stored.hostname)) is None {
            Some(h)
        } else {
            opt_text(stored.hostname)
        },
        None => opt_text(stored.hostname),
    }
}

/// The stored name after an observation: the observation's name is offered to the ranking,
/// then the settled hostname at hostname rank.
pub open spec fn merged_name(stored: HostName, incoming: HostName, hostname: Option<String>) -> HostName {
    let offered = applied_name(stored, incoming);
    match hostname {
        Some(h) => applied_name(offered, HostName::Hostname(h)),
        None => offered,
    }
}

/// A field filled only while empty.
pub open spec fn first_write_opt<T>(stored: Option<T>, incoming: Option<T>) -> Option<T> {
    if stored is None {
        incoming
    } else {
        stored
    }
}

/// A host with no hostname (or a blank one) takes the first non-blank hostname an observation
/// offers, trimmed, whether or not the observation read it itself: who may overwrite a stored
/// hostname is a question only once there is one. A host that was unnamed, offered no name of
/// note, is then called by that hostname.
pub proof fn lemma_an_empty_hostname_is_filled_by_any_observation(after: Host, before: Host, incoming: Host)
    requires
        merged_into(after, before, incoming),
        before.base.hostname is None || trim_spec(before.base.hostname->0@).len() == 0,
        incoming.base.hostname is Some,
        trim_spec(incoming.base.hostname->0@).len() > 0,
    ensures
        opt_text(after.base.hostname) == Some(trim_spec(incoming.base.hostname->0@)),
        before.base.name == HostName::Unnamed && trim_spec(name_text(incoming.base.name)).len() == 0
            ==> after.base.name is Hostname && name_text(after.base.name) == trim_spec(
            incoming.base.hostname->0@,
        ),
{
    let h = trim_spec(incoming.base.hostname->0@);
    crate::text::lemma_trimmed_idempotent(incoming.base.hostname->0@, true);
    assert(opt_text(after.base.hostname) == Some(h));
    if before.base.name == HostName::Unnamed && trim_spec(name_text(incoming.base.name)).len() == 0 {
        let s = after.base.hostname->0;
        assert(s@ == h);
        assert(applied_name(HostName::Unnamed, incoming.base.name) == HostName::Unnamed);
        assert(!crate::hosts::name_is_blank(HostName::Hostname(s)));
    }
}

/// A stored hostname belongs to whoever read it: an observation that read its hostname itself
/// replaces a stored one with what it read (trimmed); one that only heard a name never replaces
/// a hostname already stored; and an observation offering no hostname leaves it as it was.
pub proof fn lemma_only_a_read_hostname_replaces_a_stored_one(after: Host, before: Host, incoming: Host)
    requires
        merged_into(after, before, incoming),
    ensures
        incoming.base.hostname_authoritative && incoming.base.hostname is Some && trim_spec(
            incoming.base.hostname->0@,
        ).len() > 0 ==> opt_text(after.base.hostname) == Some(trim_spec(incoming.base.hostname->0@)),
        !incoming.base.hostname_authoritative && before.base.hostname is Some && trim_spec(
            before.base.hostname->0@,
        ).len() > 0 ==> opt_text(after.base.hostname) == opt_text(before.base.hostname),
        (incoming.base.hostname is None || trim_spec(incoming.base.hostname->0@).len() == 0)
            ==> opt_text(after.base.hostname) == opt_text(before.base.hostname),
{
    if !incoming.base.hostname_authoritative && before.base.hostname is Some && trim_spec(
        before.base.hostname->0@,
    ).len() > 0 {
        assert(opt_text(after.base.hostname) == opt_text(before.base.hostname));
    }
    if incoming.base.hostname is None || trim_spec(incoming.base.hostname->0@).len() == 0 {
        assert(opt_text(after.base.hostname) == opt_text(before.base.hostname));
    }
}

/// Whether two names are the same name from the same source.
pub fn names_equal(a: &HostName, b: &HostName) -> (r: bool)
    ensures
        r == (name_key(*a) == name_key(*b)),
{
    match (a, b) {
        (HostName::Unnamed, HostName::Unnamed) => true,
        (HostName::Unspecified(x), HostName::Unspecified(y)) => string_eq(x, y),
        (HostName::Hostname(x), HostName::Hostname(y)) => string_eq(x, y),
        (HostName::Integration(x), HostName::Integration(y)) => string_eq(x, y),
        (HostName::Manual(x), HostName::Manual(y)) => string_eq(x, y),
        _ => false,
    }
}

fn string_eq(x: &String, y: &String) -> (r: bool)
    ensures
        r == (x@ == y@),
{
    str_eq(x.as_str(), y.as_str())
}

fn fill_text(stored: &mut Option<String>, incoming: &Option<String>) -> (changed: bool)
    ensures
        *final(stored) == first_write_opt(*old(stored), *incoming),
        changed == ((*old(stored)) is None && incoming is Some),
{
    if stored.is_none() && incoming.is_some() {
        *stored = copy_text(incoming);
        true
    } else {
        false
    }
}

fn fill_attributed(stored: &mut Option<Attributed>, incoming: &Option<Attributed>) -> (changed:
    bool)
    ensures
        *final(stored) == first_write_opt(*old(stored), *incoming),
        changed == ((*old(stored)) is None && incoming is Some),
{
    if stored.is_none() {
        match incoming {
            Some(a) => {
                *stored = Some(Attributed::new(a.value.clone(), a.source));
                true
            },
            None => false,
        }
    } else {
        false
    }
}

/// The identification fields of `after` are those of `before` with `incoming`'s filled in
/// where `before` had none.
pub open spec fn filled_from(after: HostBase, before: HostBase, incoming: HostBase) -> bool {
    &&& after.sys_descr == first_write_opt(before.sys_descr, incoming.sys_descr)
    &&& after.sys_object_id == first_write_opt(before.sys_object_id, incoming.sys_object_id)
    &&& after.sys_location == first_write_opt(before.sys_location, incoming.sys_location)
    &&& after.sys_contact == first_write_opt(before.sys_contact, incoming.sys_contact)
    &&& after.management_url == first_write_opt(before.management_url, incoming.management_url)
    &&& after.chassis_id == first_write_opt(before.chassis_id, incoming.chassis_id)
    &&& after.sys_name == first_write_opt(before.sys_name, incoming.sys_name)
    &&& after.manufacturer == first_write_opt(before.manufacturer, incoming.manufacturer)
    &&& after.model == first_write_opt(before.model, incoming.model)
    &&& after.serial_number == first_write_opt(before.serial_number, incoming.serial_number)
}

/// Whether an observation fills any identification field that was empty.
pub open spec fn fills_any(before: HostBase, incoming: HostBase) -> bool {
    (before.sys_descr is None && incoming.sys_descr is Some) || (before.sys_object_id is None
        && incoming.sys_object_id is Some) || (before.sys_location is None
        && incoming.sys_location is Some) || (before.sys_contact is None
        && incoming.sys_contact is Some) || (before.management_url is None
        && incoming.management_url is Some) || (before.chassis_id is None
        && incoming.chassis_id is Some) || (before.sys_name is None && incoming.sys_name is Some)
        || (before.manufacturer is None && incoming.manufacturer is Some) || (before.model is None
        && incoming.model is Some) || (before.serial_number is None
        && incoming.serial_number is Some)
}

/// The source after an observation: a discovery makes the host discovered.
pub open spec fn merged_source(stored: EntitySource, incoming: EntitySource) -> EntitySource {
    if incoming == EntitySource::Discovery {
        EntitySource::Discovery
    } else {
        stored
    }
}

/// `after` is `before` with the observation `incoming` merged in.
pub open spec fn merged_into(after: Host, before: Host, incoming: Host) -> bool {
    &&& after.last_seen_at == incoming.last_seen_at
    &&& after.id == before.id
    &&& opt_text(after.base.hostname) == merged_hostname(before.base, incoming.base)
    &&& after.base.name == merged_name(before.base.name, incoming.base.name, after.base.hostname)
    &&& filled_from(after.base, before.base, incoming.base)
    &&& after.base.source == merged_source(before.base.source, incoming.base.source)
    &&& after.base.hostname_authoritative == before.base.hostname_authoritative
    &&& after.base.network_id == before.base.network_id
    &&& after.base.description == before.base.description
    &&& after.base.hidden == before.base.hidden
    &&& after.base.tags == before.base.tags
    &&& after.id == before.id && after.created_at == before.created_at
    &&& after.updated_at == before.updated_at
}

/// Whether a merge changed anything worth an update event: the hostname, the name (by source
/// and text), an identification field it filled, or the host becoming discovered.
pub open spec fn reports_update(before: HostBase, after: HostBase, incoming: HostBase) -> bool {
    opt_text(after.hostname) != opt_text(before.hostname) || name_key(after.name) != name_key(
        before.name,
    ) || fills_any(before, incoming) || (before.source != EntitySource::Discovery
        && incoming.source == EntitySource::Discovery)
}

/// Merge what a discovery observed into the stored host, and say whether anything worth an
/// update event changed. `last_seen_at` always advances to the observation's; the hostname is a
/// current observation, written when the observation owns the field; the name goes through the
/// ranking, the observation's and then the settled hostname's, and counts as a change only when
/// it ends different; every other identification field is first-write-wins; a discovery makes
/// the host discovered.
pub fn merge_observation(existing: &mut Host, incoming: &Host) -> (has_updates: bool)
    ensures
        merged_into(*final(existing), *old(existing), *incoming),
        has_updates == reports_update(old(existing).base, final(existing).base, incoming.base),
{
    let ghost before = existing.base;
    existing.last_seen_at = incoming.last_seen_at;
    let mut has_updates = false;

    let offered = match &incoming.base.hostname {
        Some(h) => {
            let t = trim_str(h.as_str());
            if t.as_str().is_empty() {
                None
            } else {
                Some(t)
            }
        },
        None => None,
    };
    if let Some(hostname) = offered {
        let stored_blank = match &existing.base.hostname {
            Some(s) => trim_str(s.as_str()).as_str().is_empty(),
            None => true,
        };
        let owns_the_field = incoming.base.hostname_authoritative || stored_blank;
        let same = match &existing.base.hostname {
            Some(s) => str_eq(s.as_str(), hostname.as_str()),
            None => false,
        };
        if owns_the_field && !same {
            has_updates = true;
            existing.base.hostname = Some(hostname);
        }
    }
    assert(opt_text(existing.base.hostname) == merged_hostname(before, incoming.base));
    assert(opt_text(existing.base.hostname) != opt_text(before.hostname) <==> has_updates);

    let name_before = existing.base.name.duplicate();
    existing.base.apply_name(incoming.base.name.duplicate());
    match copy_text(&existing.base.hostname) {
        Some(hostname) => existing.base.apply_name(HostName::Hostname(hostname)),
        None => {},
    }
    if !names_equal(&existing.base.name, &name_before) {
        has_updates = true;
    }

    let mut filled = false;
    if fill_text(&mut existing.base.sys_descr, &incoming.base.sys_descr) {
        filled = true;
    }
    if fill_text(&mut existing.base.sys_object_id, &incoming.base.sys_object_id) {
        filled = true;
    }
    if fill_text(&mut existing.base.sys_location, &incoming.base.sys_location) {
        filled = true;
    }
    if fill_text(&mut existing.base.sys_contact, &incoming.base.sys_contact) {
        filled = true;
    }
    if fill_text(&mut existing.base.management_url, &incoming.base.management_url) {
        filled = true;
    }
    if fill_attributed(&mut existing.base.chassis_id, &incoming.base.chassis_id) {
        filled = true;
    }
    if fill_attributed(&mut existing.base.sys_name, &incoming.base.sys_name) {
        filled = true;
    }
    if fill_text(&mut existing.base.manufacturer, &incoming.base.manufacturer) {
        filled = true;
    }
    if fill_text(&mut existing.base.model, &incoming.base.model) {
        filled = true;
    }
    if fill_text(&mut existing.base.serial_number, &incoming.base.serial_number) {
        filled = true;
    }
    if filled {
        has_updates = true;
    }

    match (existing.base.source, incoming.base.source) {
        (EntitySource::Discovery, EntitySource::Discovery) => {},
        (_, EntitySource::Discovery) => {
            has_updates = true;
            existing.base.source = EntitySource::Discovery;
        },
        _ => {},
    }
    has_updates
}

/// A host used as the source of a merge has not observed anything: it may fill an empty
/// hostname and nothing more.
pub fn as_merge_source(other: &Host) -> (r: Host)
    ensures
        r.base.hostname == other.base.hostname,
        !r.base.hostname_authoritative,
        r.base.name == other.base.name,
        r.last_seen_at == other.last_seen_at,
        r.base.sys_descr == other.base.sys_descr && r.base.sys_object_id == other.base.sys_object_id,
        r.base.sys_location == other.base.sys_location && r.base.sys_contact
            == other.base.sys_contact,
        r.base.management_url == other.base.management_url && r.base.chassis_id
            == other.base.chassis_id,
        r.base.sys_name == other.base.sys_name && r.base.manufacturer == other.base.manufacturer,
        r.base.model == other.base.model && r.base.serial_number == other.base.serial_number,
        r.base.source == other.base.source,
        r.base.network_id == other.base.network_id,
        r.base.description == other.base.description && r.base.hidden == other.base.hidden,
        r.base.tags@ == other.base.tags@,
        r.id == other.id && r.created_at == other.created_at && r.updated_at == other.updated_at,
{
    let b = &other.base;
    Host {
        id: other.id,
        created_at: other.created_at,
        updated_at: other.updated_at,
        last_seen_at: other.last_seen_at,
        base: HostBase {
            network_id: b.network_id,
            name: b.name.duplicate(),
            hostname: copy_text(&b.hostname),
            hostname_authoritative: false,
            sys_name: copy_attributed(&b.sys_name),
            chassis_id: copy_attributed(&b.chassis_id),
            manufacturer: copy_text(&b.manufacturer),
            model: copy_text(&b.model),
            serial_number: copy_text(&b.serial_number),
            sys_descr: copy_text(&b.sys_descr),
            sys_object_id: copy_text(&b.sys_object_id),
            sys_location: copy_text(&b.sys_location),
            sys_contact: copy_text(&b.sys_contact),
            management_url: copy_text(&b.management_url),
            source: b.source,
            description: copy_text(&b.description),
            hidden: b.hidden,
            tags: copy_tags(&b.tags),
        },
    }
}

fn copy_tags(v: &Vec<u128>) -> (r: Vec<u128>)
    ensures
        r@ == v@,
{
    let mut out: Vec<u128> = Vec::new();
    let mut i: usize = 0;
    while i < v.len()
        invariant
            i <= v@.len(),
            out@ == v@.subrange(0, i as int),
        decreases v.len() - i,
    {
        out.push(v[i]);
        assert(out@ =~= v@.subrange(0, i + 1));
        i = i + 1;
    }
    assert(out@ =~= v@);
    out
}

fn copy_attributed(a: &Option<Attributed>) -> (r: Option<Attributed>)
    ensures
        r == *a,
{
    match a {
        Some(v) => Some(Attributed::new(v.value.clone(), v.source)),
        None => None,
    }
}

// ---------------------------------------------------------------------------------------------
// Consolidating one host into another
// ---------------------------------------------------------------------------------------------

/// Why a consolidation is refused.
#[derive(Debug, Clone, Copy, PartialEq, Eq, Structural)]
pub enum ConsolidationRefusal {
    /// A host cannot be consolidated into itself.
    SameHost,
    /// The host being absorbed runs a daemon; consolidate in the other direction instead.
    SourceHasDaemon,
}

/// Whether a consolidation may go ahead: not of a host into itself, and not of a host that has
/// a daemon.
pub fn consolidation_refusal(destination_id: u128, other_id: u128, other_has_daemon: bool) -> (r:
    Option<ConsolidationRefusal>)
    ensures
        r == (if destination_id == other_id {
            Some(ConsolidationRefusal::SameHost)
        } else if other_has_daemon {
            Some(ConsolidationRefusal::SourceHasDaemon)
        } else {
            None
        }),
{
    if destination_id == other_id {
        Some(ConsolidationRefusal::SameHost)
    } else if other_has_daemon {
        Some(ConsolidationRefusal::SourceHasDaemon)
    } else {
        None
    }
}

/// An IP address row of a host, as consolidation compares it. The MAC is the 48-bit address as
/// a number.
#[derive(Debug, Clone, Copy, PartialEq, Eq, Structural)]
pub struct IpAddressRow {
    pub id: u128,
    pub subnet_id: u128,
    pub ip_address: IpAddress,
    pub mac_address: Option<u64>,
}

/// How many rows carry `mac`.
pub open spec fn mac_count(rows: Seq<IpAddressRow>, mac: u64) -> nat
    decreases rows.len(),
{
    if rows.len() == 0 {
        0
    } else {
        mac_count(rows.drop_last(), mac) + if rows.last().mac_address == Some(mac) {
            1nat
        } else {
            0nat
        }
    }
}

/// Whether a destination row and a source row are the same address: the same IP on the same
/// subnet, or the same MAC when that MAC is on exactly one row of each host (several rows on one
/// MAC are VLAN sub-interfaces, kept apart).
pub open spec fn ip_rows_collide(
    d: IpAddressRow,
    o: IpAddressRow,
    dest: Seq<IpAddressRow>,
    other: Seq<IpAddressRow>,
) -> bool {
    (d.subnet_id == o.subnet_id && d.ip_address == o.ip_address) || (d.mac_address is Some
        && d.mac_address == o.mac_address && mac_count(dest, d.mac_address->0) == 1 && mac_count(
        other,
        d.mac_address->0,
    ) == 1)
}

/// The first destination row from `j` on that collides with `o`.
pub open spec fn first_ip_collision(
    dest: Seq<IpAddressRow>,
    other: Seq<IpAddressRow>,
    o: IpAddressRow,
    j: int,
) -> Option<int>
    decreases dest.len() - j,
{
    if j < 0 || j >= dest.len() {
        None
    } else if ip_rows_collide(dest[j], o, dest, other) {
        Some(j)
    } else {
        first_ip_collision(dest, other, o, j + 1)
    }
}

/// Where a source row goes: onto the first destination row it collides with, or (moved to the
/// destination host) onto itself.
pub open spec fn ip_target(dest: Seq<IpAddressRow>, other: Seq<IpAddressRow>, o: IpAddressRow) -> u128 {
    match first_ip_collision(dest, other, o, 0) {
        Some(j) => dest[j].id,
        None => o.id,
    }
}

/// One entry of an id mapping: the old id and the id it now stands for.
#[derive(Debug, Clone, Copy, PartialEq, Eq, Structural)]
pub struct IdMapping {
    pub from: u128,
    pub to: u128,
    /// The row moved to the destination host (as opposed to being merged into one there).
    pub moved: bool,
}

fn count_mac(rows: &[IpAddressRow], mac: u64) -> (r: usize)
    ensures
        r == mac_count(rows@, mac),
{
    let mut n: usize = 0;
    let mut i: usize = 0;
    while i < rows.len()
        invariant
            i <= rows@.len(),
            n == mac_count(rows@.subrange(0, i as int), mac),
            n <= i,
        decreases rows.len() - i,
    {
        assert(rows@.subrange(0, i + 1).drop_last() =~= rows@.subrange(0, i as int));
        if rows[i].mac_address == Some(mac) {
            n = n + 1;
        }
        i = i + 1;
    }
    assert(rows@.subrange(0, rows@.len() as int) =~= rows@);
    n
}

fn ip_collides(d: &IpAddressRow, o: &IpAddressRow, dest: &[IpAddressRow], other: &[IpAddressRow]) -> (r: bool)
    ensures
        r == ip_rows_collide(*d, *o, dest@, other@),
{
    if d.subnet_id == o.subnet_id && d.ip_address == o.ip_address {
        return true;
    }
    match (d.mac_address, o.mac_address) {
        (Some(m), Some(n)) => m == n && count_mac(dest, m) == 1 && count_mac(other, m) == 1,
        _ => false,
    }
}

fn find_ip_collision(dest: &[IpAddressRow], other: &[IpAddressRow], o: &IpAddressRow) -> (r: Option<usize>)
    ensures
        match r {
            Some(j) => j < dest@.len() && first_ip_collision(dest@, other@, *o, 0) == Some(j as int),
            None => first_ip_collision(dest@, other@, *o, 0) is None,
        },
{
    let mut j: usize = 0;
    while j < dest.len()
        invariant
            j <= dest@.len(),
            first_ip_collision(dest@, other@, *o, 0) == first_ip_collision(dest@, other@, *o, j as int),
        decreases dest.len() - j,
    {
        if ip_collides(&dest[j], o, dest, other) {
            return Some(j);
        }
        j = j + 1;
    }
    None
}

fn find_port_collision(dest: &[PortRow], o: &PortRow) -> (r: Option<usize>)
    ensures
        match r {
            Some(j) => j < dest@.len() && first_port_collision(dest@, *o, 0) == Some(j as int),
            None => first_port_collision(dest@, *o, 0) is None,
        },
{
    let mut j: usize = 0;
    while j < dest.len()
        invariant
            j <= dest@.len(),
            first_port_collision(dest@, *o, 0) == first_port_collision(dest@, *o, j as int),
        decreases dest.len() - j,
    {
        if dest[j].number == o.number && dest[j].protocol == o.protocol {
            return Some(j);
        }
        j = j + 1;
    }
    None
}

/// How the source host's IP addresses join the destination: each, in order, onto the first
/// destination address it collides with, or moved across unchanged.
pub fn plan_ip_address_merge(dest: &[IpAddressRow], other: &[IpAddressRow]) -> (r: Vec<IdMapping>)
    ensures
        r@.len() == other@.len(),
        forall|i: int|
            0 <= i < r@.len() ==> {
                &&& (#[trigger] r@[i]).from == other@[i].id
                &&& r@[i].to == ip_target(dest@, other@, other@[i])
                &&& r@[i].moved == first_ip_collision(dest@, other@, other@[i], 0) is None
            },
{
    let mut out: Vec<IdMapping> = Vec::new();
    let mut i: usize = 0;
    while i < other.len()
        invariant
            i <= other@.len(),
            out@.len() == i,
            forall|k: int|
                0 <= k < i ==> {
                    &&& (#[trigger] out@[k]).from == other@[k].id
                    &&& out@[k].to == ip_target(dest@, other@, other@[k])
                    &&& out@[k].moved == first_ip_collision(dest@, other@, other@[k], 0) is None
                },
        decreases other.len() - i,
    {
        let o = other[i];
        let found: Option<u128> = match find_ip_collision(dest, other, &o) {
            Some(j) => Some(dest[j].id),
            None => None,
        };
        let entry = match found {
            Some(id) => IdMapping { from: o.id, to: id, moved: false },
            None => IdMapping { from: o.id, to: o.id, moved: true },
        };
        out.push(entry);
        i = i + 1;
    }
    out
}

/// The protocol of a port.
#[derive(Debug, Clone, Copy, PartialEq, Eq, Structural)]
pub enum TransportProtocol {
    Tcp,
    Udp,
}

/// A port row of a host, by number and protocol.
#[derive(Debug, Clone, Copy, PartialEq, Eq, Structural)]
pub struct PortRow {
    pub id: u128,
    pub number: u16,
    pub protocol: TransportProtocol,
}

/// The first destination port from `j` on with the same number and protocol as `o`.
pub open spec fn first_port_collision(dest: Seq<PortRow>, o: PortRow, j: int) -> Option<int>
    decreases dest.len() - j,
{
    if j < 0 || j >= dest.len() {
        None
    } else if dest[j].number == o.number && dest[j].protocol == o.protocol {
        Some(j)
    } else {
        first_port_collision(dest, o, j + 1)
    }
}

proof fn lemma_mac_count_at_least_one(rows: Seq<IpAddressRow>, i: int, m: u64)
    requires
        0 <= i < rows.len(),
        rows[i].mac_address == Some(m),
    ensures
        mac_count(rows, m) >= 1,
    decreases rows.len(),
{
    if i < rows.len() - 1 {
        lemma_mac_count_at_least_one(rows.drop_last(), i, m);
    }
}

proof fn lemma_mac_count_at_least_two(rows: Seq<IpAddressRow>, i: int, k: int, m: u64)
    requires
        0 <= i < rows.len(),
        0 <= k < rows.len(),
        i != k,
        rows[i].mac_address == Some(m),
        rows[k].mac_address == Some(m),
    ensures
        mac_count(rows, m) >= 2,
    decreases rows.len(),
{
    let n = rows.len() - 1;
    if i == n {
        lemma_mac_count_at_least_one(rows.drop_last(), k, m);
    } else if k == n {
        lemma_mac_count_at_least_one(rows.drop_last(), i, m);
    } else {
        lemma_mac_count_at_least_two(rows.drop_last(), i, k, m);
    }
}

proof fn lemma_no_collision_from(dest: Seq<IpAddressRow>, other: Seq<IpAddressRow>, o: IpAddressRow, j: int)
    requires
        forall|x: int|
            0 <= x < dest.len() ==> !((#[trigger] dest[x]).subnet_id == o.subnet_id && dest[x].ip_address
                == o.ip_address),
        o.mac_address is None || mac_count(other, o.mac_address->0) != 1 || mac_count(
            dest,
            o.mac_address->0,
        ) != 1,
    ensures
        first_ip_collision(dest, other, o, j) is None,
    decreases dest.len() - j,
{
    if 0 <= j < dest.len() {
        lemma_no_collision_from(dest, other, o, j + 1);
    }
}

proof fn lemma_collision_no_later_than(
    dest: Seq<IpAddressRow>,
    other: Seq<IpAddressRow>,
    o: IpAddressRow,
    s: int,
    j: int,
)
    requires
        0 <= s <= j < dest.len(),
        ip_rows_collide(dest[j], o, dest, other),
    ensures
        first_ip_collision(dest, other, o, s) matches Some(x) && s <= x <= j,
    decreases j - s,
{
    if s < j && !ip_rows_collide(dest[s], o, dest, other) {
        lemma_collision_no_later_than(dest, other, o, s + 1, j);
    }
}

/// Addresses that share a MAC on the source host are VLAN sub-interfaces, each its own address:
/// a source row whose MAC is also on another source row, and whose IP is on no destination row
/// in the same subnet, collides with nothing and moves across as itself, whatever MACs the
/// destination carries.
pub proof fn lemma_a_mac_shared_on_the_source_host_is_no_collision(
    dest: Seq<IpAddressRow>,
    other: Seq<IpAddressRow>,
    i: int,
    k: int,
)
    requires
        0 <= i < other.len(),
        0 <= k < other.len(),
        i != k,
        other[i].mac_address is Some,
        other[k].mac_address == other[i].mac_address,
        forall|x: int|
            0 <= x < dest.len() ==> !((#[trigger] dest[x]).subnet_id == other[i].subnet_id
                && dest[x].ip_address == other[i].ip_address),
    ensures
        first_ip_collision(dest, other, other[i], 0) is None,
        ip_target(dest, other, other[i]) == other[i].id,
{
    lemma_mac_count_at_least_two(other, i, k, other[i].mac_address->0);
    lemma_no_collision_from(dest, other, other[i], 0);
}

/// Likewise on the destination side: a MAC on two destination rows identifies neither, so a
/// source row carrying it, with an IP on no destination row in the same subnet, moves across as
/// itself.
pub proof fn lemma_a_mac_shared_on_the_destination_host_is_no_collision(
    dest: Seq<IpAddressRow>,
    other: Seq<IpAddressRow>,
    o: IpAddressRow,
    i: int,
    k: int,
)
    requires
        0 <= i < dest.len(),
        0 <= k < dest.len(),
        i != k,
        o.mac_address is Some,
        dest[i].mac_address == o.mac_address,
        dest[k].mac_address == o.mac_address,
        forall|x: int|
            0 <= x < dest.len() ==> !((#[trigger] dest[x]).subnet_id == o.subnet_id && dest[x].ip_address
                == o.ip_address),
    ensures
        first_ip_collision(dest, other, o, 0) is None,
        ip_target(dest, other, o) == o.id,
{
    lemma_mac_count_at_least_two(dest, i, k, o.mac_address->0);
    lemma_no_collision_from(dest, other, o, 0);
}

/// A row carrying no MAC is matched by its address alone: with no destination row holding its
/// IP in its subnet (the same IP in another subnet is another address), it moves across as
/// itself.
pub proof fn lemma_a_row_without_a_mac_moves_unless_its_address_is_there(
    dest: Seq<IpAddressRow>,
    other: Seq<IpAddressRow>,
    o: IpAddressRow,
)
    requires
        o.mac_address is None,
        forall|x: int|
            0 <= x < dest.len() ==> !((#[trigger] dest[x]).subnet_id == o.subnet_id && dest[x].ip_address
                == o.ip_address),
    ensures
        first_ip_collision(dest, other, o, 0) is None,
        ip_target(dest, other, o) == o.id,
{
    lemma_no_collision_from(dest, other, o, 0);
}

/// The same IP on the same subnet is always the same address: a source row with a destination
/// row like that is merged into a destination row no later than it, and does not move.
pub proof fn lemma_the_same_address_always_collides(
    dest: Seq<IpAddressRow>,
    other: Seq<IpAddressRow>,
    o: IpAddressRow,
    j: int,
)
    requires
        0 <= j < dest.len(),
        dest[j].subnet_id == o.subnet_id,
        dest[j].ip_address == o.ip_address,
    ensures
        first_ip_collision(dest, other, o, 0) matches Some(x) && 0 <= x <= j,
{
    lemma_collision_no_later_than(dest, other, o, 0, j);
}

/// A MAC that is on exactly one row of each host names one device's one address: the two rows
/// are merged, whatever their IPs.
pub proof fn lemma_a_unique_mac_on_both_hosts_collides(
    dest: Seq<IpAddressRow>,
    other: Seq<IpAddressRow>,
    i: int,
    j: int,
)
    requires
        0 <= i < other.len(),
        0 <= j < dest.len(),
        other[i].mac_address is Some,
        dest[j].mac_address == other[i].mac_address,
        forall|x: int| 0 <= x < dest.len() && x != j ==> (#[trigger] dest[x]).mac_address != other[i].mac_address,
        forall|x: int| 0 <= x < other.len() && x != i ==> (#[trigger] other[x]).mac_address != other[i].mac_address,
    ensures
        first_ip_collision(dest, other, other[i], 0) matches Some(x) && 0 <= x <= j,
{
    let m = other[i].mac_address->0;
    lemma_mac_count_exactly_one(dest, j, m);
    lemma_mac_count_exactly_one(other, i, m);
    lemma_collision_no_later_than(dest, other, other[i], 0, j);
}

proof fn lemma_mac_count_exactly_one(rows: Seq<IpAddressRow>, i: int, m: u64)
    requires
        0 <= i < rows.len(),
        rows[i].mac_address == Some(m),
        forall|x: int| 0 <= x < rows.len() && x != i ==> (#[trigger] rows[x]).mac_address != Some(m),
    ensures
        mac_count(rows, m) == 1,
    decreases rows.len(),
{
    let n = rows.len() - 1;
    if i < n {
        assert forall|x: int| 0 <= x < rows.drop_last().len() && x != i implies (
        #[trigger] rows.drop_last()[x]).mac_address != Some(m) by {
            assert(rows.drop_last()[x] == rows[x]);
        }
        lemma_mac_count_exactly_one(rows.drop_last(), i, m);
    } else {
        lemma_mac_count_none(rows.drop_last(), m);
    }
}

proof fn lemma_mac_count_none(rows: Seq<IpAddressRow>, m: u64)
    requires
        forall|x: int| 0 <= x < rows.len() ==> (#[trigger] rows[x]).mac_address != Some(m),
    ensures
        mac_count(rows, m) == 0,
    decreases rows.len(),
{
    if rows.len() > 0 {
        assert forall|x: int| 0 <= x < rows.drop_last().len() implies (#[trigger] rows.drop_last()[x]).mac_address
            != Some(m) by {
            assert(rows.drop_last()[x] == rows[x]);
        }
        lemma_mac_count_none(rows.drop_last(), m);
    }
}

/// How the source host's ports join the destination: each, in order, onto the first
/// destination port with the same number and protocol, or moved across unchanged.
pub fn plan_port_merge(dest: &[PortRow], other: &[PortRow]) -> (r: Vec<IdMapping>)
    ensures
        r@.len() == other@.len(),
        forall|i: int|
            0 <= i < r@.len() ==> {
                &&& (#[trigger] r@[i]).from == other@[i].id
                &&& r@[i].to == match first_port_collision(dest@, other@[i], 0) {
                    Some(j) => dest@[j].id,
                    None => other@[i].id,
                }
                &&& r@[i].moved == first_port_collision(dest@, other@[i], 0) is None
            },
{
    let mut out: Vec<IdMapping> = Vec::new();
    let mut i: usize = 0;
    while i < other.len()
        invariant
            i <= other@.len(),
            out@.len() == i,
            forall|k: int|
                0 <= k < i ==> {
                    &&& (#[trigger] out@[k]).from == other@[k].id
                    &&& out@[k].to == match first_port_collision(dest@, other@[k], 0) {
                        Some(j) => dest@[j].id,
                        None => other@[k].id,
                    }
                    &&& out@[k].moved == first_port_collision(dest@, other@[k], 0) is None
                },
        decreases other.len() - i,
    {
        let o = other[i];
        let found: Option<u128> = match find_port_collision(dest, &o) {
            Some(j) => Some(dest[j].id),
            None => None,
        };
        let entry = match found {
            Some(id) => IdMapping { from: o.id, to: id, moved: false },
            None => IdMapping { from: o.id, to: o.id, moved: true },
        };
        out.push(entry);
        i = i + 1;
    }
    out
}

/// What an id maps to: the last mapping entry for it, as a map written entry by entry holds.
pub open spec fn mapped(map: Seq<IdMapping>, id: u128) -> Option<u128>
    decreases map.len(),
{
    if map.len() == 0 {
        None
    } else if map.last().from == id {
        Some(map.last().to)
    } else {
        mapped(map.drop_last(), id)
    }
}

/// Look an id up in a mapping.
pub fn lookup(map: &[IdMapping], id: u128) -> (r: Option<u128>)
    ensures
        r == mapped(map@, id),
{
    let mut i: usize = map.len();
    assert(map@.subrange(0, map@.len() as int) =~= map@);
    while i > 0
        invariant
            i <= map@.len(),
            mapped(map@, id) == mapped(map@.subrange(0, i as int), id),
        decreases i,
    {
        assert(map@.subrange(0, i as int).drop_last() =~= map@.subrange(0, i - 1));
        if map[i - 1].from == id {
            return Some(map[i - 1].to);
        }
        i = i - 1;
    }
    None
}

/// What a service binding is bound to.
#[derive(Debug, Clone, Copy, PartialEq, Eq, Structural)]
pub enum BindingTarget {
    /// One IP address.
    IpAddress { ip_address_id: u128 },
    /// One port, on one IP address or (with none) on every address of the host.
    Port { port_id: u128, ip_address_id: Option<u128> },
}

/// A binding after consolidation: an IP address follows the address mapping (kept when the
/// mapping does not know it); a port follows the port mapping (kept likewise); a port's address
/// follows the address mapping, and falls back to every address when the mapping does not know
/// it.
pub open spec fn remapped_binding(b: BindingTarget, ips: Seq<IdMapping>, ports: Seq<IdMapping>) -> BindingTarget {
    match b {
        BindingTarget::IpAddress { ip_address_id } => BindingTarget::IpAddress {
            ip_address_id: match mapped(ips, ip_address_id) {
                Some(n) => n,
                None => ip_address_id,
            },
        },
        BindingTarget::Port { port_id, ip_address_id } => BindingTarget::Port {
            port_id: match mapped(ports, port_id) {
                Some(n) => n,
                None => port_id,
            },
            ip_address_id: match ip_address_id {
                Some(a) => mapped(ips, a),
                None => None,
            },
        },
    }
}

/// Remap a service binding onto the destination host's addresses and ports.
pub fn remap_binding(b: BindingTarget, ips: &[IdMapping], ports: &[IdMapping]) -> (r: BindingTarget)
    ensures
        r == remapped_binding(b, ips@, ports@),
{
    match b {
        BindingTarget::IpAddress { ip_address_id } => BindingTarget::IpAddress {
            ip_address_id: match lookup(ips, ip_address_id) {
                Some(n) => n,
                None => ip_address_id,
            },
        },
        BindingTarget::Port { port_id, ip_address_id } => BindingTarget::Port {
            port_id: match lookup(ports, port_id) {
                Some(n) => n,
                None => port_id,
            },
            ip_address_id: match ip_address_id {
                Some(a) => lookup(ips, a),
                None => None,
            },
        },
    }
}

/// A service, by what makes two services on one host the same.
#[derive(Debug, Clone)]
pub struct ServiceKey {
    pub name: String,
    pub definition_id: String,
}

/// Whether the destination already has a service with this name and definition, so the source's
/// copy is dropped rather than moved.
pub fn is_duplicate_service(destination: &[ServiceKey], service: &ServiceKey) -> (r: bool)
    ensures
        r == exists|j: int|
            0 <= j < destination@.len() && (#[trigger] destination@[j]).name@ == service.name@
                && destination@[j].definition_id@ == service.definition_id@,
{
    let mut j: usize = 0;
    while j < destination.len()
        invariant
            j <= destination@.len(),
            forall|k: int|
                0 <= k < j ==> !((#[trigger] destination@[k]).name@ == service.name@
                    && destination@[k].definition_id@ == service.definition_id@),
        decreases destination.len() - j,
    {
        if str_eq(destination[j].name.as_str(), service.name.as_str()) && str_eq(
            destination[j].definition_id.as_str(),
            service.definition_id.as_str(),
        ) {
            return true;
        }
        j = j + 1;
    }
    false
}

// ---------------------------------------------------------------------------------------------
// Credential assignments
// ---------------------------------------------------------------------------------------------

/// A credential assigned to a host: on some of its addresses, or (with none listed) on all.
#[derive(Debug, Clone, PartialEq, Eq)]
pub struct CredentialAssignment {
    pub credential_id: u128,
    pub ip_address_ids: Option<Vec<u128>>,
}

/// The ids that survive the address mapping, in order, each as what it maps to.
pub open spec fn remap_ids(ids: Seq<u128>, map: Seq<IdMapping>) -> Seq<u128>
    decreases ids.len(),
{
    if ids.len() == 0 {
        Seq::empty()
    } else {
        let rest = remap_ids(ids.drop_last(), map);
        match mapped(map, ids.last()) {
            Some(n) => rest.push(n),
            None => rest,
        }
    }
}

/// `base` followed by each id of `more` not already present.
pub open spec fn union_ids(base: Seq<u128>, more: Seq<u128>) -> Seq<u128>
    decreases more.len(),
{
    if more.len() == 0 {
        base
    } else {
        let next = if base.contains(more[0]) {
            base
        } else {
            base.push(more[0])
        };
        union_ids(next, more.drop_first())
    }
}

/// The scope two assignments of one credential combine to: every address if either covers
/// every address, else the union.
pub open spec fn broadest_scope(dest: Option<Seq<u128>>, other: Option<Seq<u128>>) -> Option<Seq<u128>> {
    match (dest, other) {
        (Some(d), Some(o)) => Some(union_ids(d, o)),
        _ => None,
    }
}

fn remap_id_list(ids: &Vec<u128>, map: &[IdMapping]) -> (r: Vec<u128>)
    ensures
        r@ == remap_ids(ids@, map@),
{
    let mut out: Vec<u128> = Vec::new();
    let mut i: usize = 0;
    while i < ids.len()
        invariant
            i <= ids@.len(),
            out@ == remap_ids(ids@.subrange(0, i as int), map@),
        decreases ids.len() - i,
    {
        assert(ids@.subrange(0, i + 1).drop_last() =~= ids@.subrange(0, i as int));
        match lookup(map, ids[i]) {
            Some(n) => out.push(n),
            None => {},
        }
        i = i + 1;
    }
    assert(ids@.subrange(0, ids@.len() as int) =~= ids@);
    out
}

fn contains_id(v: &Vec<u128>, id: u128) -> (r: bool)
    ensures
        r == v@.contains(id),
{
    let mut i: usize = 0;
    while i < v.len()
        invariant
            i <= v@.len(),
            forall|k: int| 0 <= k < i ==> v@[k] != id,
        decreases v.len() - i,
    {
        if v[i] == id {
            assert(v@[i as int] == id);
            return true;
        }
        i = i + 1;
    }
    false
}

fn union_id_lists(base: &Vec<u128>, more: &Vec<u128>) -> (r: Vec<u128>)
    ensures
        r@ == union_ids(base@, more@),
{
    let mut out: Vec<u128> = Vec::new();
    let mut k: usize = 0;
    while k < base.len()
        invariant
            k <= base@.len(),
            out@ == base@.subrange(0, k as int),
        decreases base.len() - k,
    {
        out.push(base[k]);
        k = k + 1;
        assert(out@ =~= base@.subrange(0, k as int));
    }
    assert(base@.subrange(0, base@.len() as int) =~= base@);
    assert(more@.subrange(0, more@.len() as int) =~= more@);
    let mut i: usize = 0;
    while i < more.len()
        invariant
            i <= more@.len(),
            union_ids(base@, more@) == union_ids(out@, more@.subrange(i as int, more@.len() as int)),
        decreases more.len() - i,
    {
        let ghost rest = more@.subrange(i as int, more@.len() as int);
        assert(rest.drop_first() =~= more@.subrange(i + 1, more@.len() as int));
        assert(rest[0] == more@[i as int]);
        if !contains_id(&out, more[i]) {
            out.push(more[i]);
        }
        i = i + 1;
    }
    assert(more@.subrange(more@.len() as int, more@.len() as int) =~= Seq::<u128>::empty());
    out
}

/// Index of the first assignment of `credential_id`, if any.
pub open spec fn first_assignment(list: Seq<CredentialAssignment>, credential_id: u128, j: int) -> Option<int>
    decreases list.len() - j,
{
    if j < 0 || j >= list.len() {
        None
    } else if list[j].credential_id == credential_id {
        Some(j)
    } else {
        first_assignment(list, credential_id, j + 1)
    }
}

/// The destination's assignment of a credential, as a map built from its list holds it (the
/// last one listed).
pub open spec fn dest_assignment(dest: Seq<CredentialAssignment>, credential_id: u128) -> Option<CredentialAssignment>
    decreases dest.len(),
{
    if dest.len() == 0 {
        None
    } else if dest.last().credential_id == credential_id {
        Some(dest.last())
    } else {
        dest_assignment(dest.drop_last(), credential_id)
    }
}

pub open spec fn scope_of(a: CredentialAssignment) -> Option<Seq<u128>> {
    match a.ip_address_ids {
        Some(v) => Some(v@),
        None => None,
    }
}

/// A credential assignment in view: its credential and its scope.
pub open spec fn assignment_view(a: CredentialAssignment) -> (u128, Option<Seq<u128>>) {
    (a.credential_id, scope_of(a))
}

/// One step of the credential merge: the source assignment `o` folded into `merged`. Its
/// address scope is remapped; one whose listed addresses all disappeared is dropped; a
/// credential the destination also holds gets the broadest scope of the two on its first entry;
/// any other is appended. The flag says whether `o` was migrated.
pub open spec fn merge_step(
    merged: Seq<(u128, Option<Seq<u128>>)>,
    dest: Seq<CredentialAssignment>,
    o: CredentialAssignment,
    map: Seq<IdMapping>,
) -> (Seq<(u128, Option<Seq<u128>>)>, bool) {
    let remapped = match scope_of(o) {
        Some(ids) => Some(remap_ids(ids, map)),
        None => None,
    };
    if remapped matches Some(r) && r.len() == 0 {
        (merged, false)
    } else {
        match dest_assignment(dest, o.credential_id) {
            Some(d) => {
                let scope = broadest_scope(scope_of(d), remapped);
                match first_view_of(merged, o.credential_id, 0) {
                    Some(k) => (merged.update(k, (o.credential_id, scope)), true),
                    None => (merged, true),
                }
            },
            None => (merged.push((o.credential_id, remapped)), true),
        }
    }
}

pub open spec fn first_view_of(merged: Seq<(u128, Option<Seq<u128>>)>, credential_id: u128, j: int) -> Option<int>
    decreases merged.len() - j,
{
    if j < 0 || j >= merged.len() {
        None
    } else if merged[j].0 == credential_id {
        Some(j)
    } else {
        first_view_of(merged, credential_id, j + 1)
    }
}

/// The credential merge over the first `n` source assignments: the merged list and how many
/// were migrated.
pub open spec fn merge_all(
    dest: Seq<CredentialAssignment>,
    other: Seq<CredentialAssignment>,
    map: Seq<IdMapping>,
    n: int,
) -> (Seq<(u128, Option<Seq<u128>>)>, nat)
    decreases n,
{
    if n <= 0 {
        (dest.map_values(|a: CredentialAssignment| assignment_view(a)), 0)
    } else {
        let (merged, count) = merge_all(dest, other, map, n - 1);
        let (next, migrated) = merge_step(merged, dest, other[n - 1], map);
        (next, if migrated {
            count + 1
        } else {
            count
        })
    }
}

fn find_dest_assignment(dest: &[CredentialAssignment], credential_id: u128) -> (r: Option<usize>)
    ensures
        match r {
            Some(k) => k < dest@.len() && dest_assignment(dest@, credential_id) == Some(dest@[k as int]),
            None => dest_assignment(dest@, credential_id) is None,
        },
{
    let mut i: usize = dest.len();
    assert(dest@.subrange(0, dest@.len() as int) =~= dest@);
    while i > 0
        invariant
            i <= dest@.len(),
            dest_assignment(dest@, credential_id) == dest_assignment(dest@.subrange(0, i as int), credential_id),
        decreases i,
    {
        assert(dest@.subrange(0, i as int).drop_last() =~= dest@.subrange(0, i - 1));
        if dest[i - 1].credential_id == credential_id {
            return Some(i - 1);
        }
        i = i - 1;
    }
    None
}

fn copy_ids(v: &Option<Vec<u128>>) -> (r: Option<Vec<u128>>)
    ensures
        match r {
            Some(w) => v matches Some(x) && w@ == x@,
            None => v is None,
        },
{
    match v {
        None => None,
        Some(x) => {
            let mut w: Vec<u128> = Vec::new();
            let mut i: usize = 0;
            while i < x.len()
                invariant
                    i <= x@.len(),
                    w@ == x@.subrange(0, i as int),
                decreases x.len() - i,
            {
                w.push(x[i]);
                i = i + 1;
                assert(w@ =~= x@.subrange(0, i as int));
            }
            assert(x@.subrange(0, x@.len() as int) =~= x@);
            Some(w)
        },
    }
}

pub open spec fn views_of(list: Seq<CredentialAssignment>) -> Seq<(u128, Option<Seq<u128>>)> {
    list.map_values(|a: CredentialAssignment| assignment_view(a))
}

fn find_assignment(merged: &Vec<CredentialAssignment>, credential_id: u128) -> (r: Option<usize>)
    ensures
        match r {
            Some(j) => j < merged@.len() && first_view_of(views_of(merged@), credential_id, 0) == Some(j as int),
            None => first_view_of(views_of(merged@), credential_id, 0) is None,
        },
{
    let ghost v = views_of(merged@);
    let mut j: usize = 0;
    while j < merged.len()
        invariant
            j <= merged@.len(),
            v == views_of(merged@),
            first_view_of(v, credential_id, 0) == first_view_of(v, credential_id, j as int),
        decreases merged.len() - j,
    {
        assert(v[j as int] == assignment_view(merged@[j as int]));
        if merged[j].credential_id == credential_id {
            return Some(j);
        }
        j = j + 1;
    }
    None
}

/// Move the source host's credential assignments onto the destination: the destination's
/// assignments in their order, each source assignment folded in by [`merge_step`]. Returns the
/// merged list and how many source assignments were migrated.
pub fn merge_credential_assignments(
    dest: &[CredentialAssignment],
    other: &[CredentialAssignment],
    ip_map: &[IdMapping],
) -> (r: (Vec<CredentialAssignment>, usize))
    requires
        other@.len() < usize::MAX,
    ensures
        views_of(r.0@) == merge_all(dest@, other@, ip_map@, other@.len() as int).0,
        r.1 == merge_all(dest@, other@, ip_map@, other@.len() as int).1,
{
    let mut merged: Vec<CredentialAssignment> = Vec::new();
    let mut k: usize = 0;
    while k < dest.len()
        invariant
            k <= dest@.len(),
            merged@.len() == k,
            views_of(merged@) == views_of(dest@.subrange(0, k as int)),
        decreases dest.len() - k,
    {
        let ghost before = merged@;
        merged.push(CredentialAssignment {
            credential_id: dest[k].credential_id,
            ip_address_ids: copy_ids(&dest[k].ip_address_ids),
        });
        assert(assignment_view(merged@[k as int]) == assignment_view(dest@[k as int]));
        assert forall|x: int| 0 <= x <= k implies #[trigger] views_of(merged@)[x] == views_of(
            dest@.subrange(0, k + 1),
        )[x] by {
            if x < k {
                assert(merged@[x] == before[x]);
                assert(views_of(before)[x] == views_of(dest@.subrange(0, k as int))[x]);
            }
        }
        k = k + 1;
        assert(views_of(merged@) =~= views_of(dest@.subrange(0, k as int)));
    }
    assert(dest@.subrange(0, dest@.len() as int) =~= dest@);
    let mut migrated: usize = 0;
    let mut i: usize = 0;
    while i < other.len()
        invariant
            i <= other@.len(),
            other@.len() < usize::MAX,
            views_of(merged@) == merge_all(dest@, other@, ip_map@, i as int).0,
            migrated == merge_all(dest@, other@, ip_map@, i as int).1,
            migrated <= i,
        decreases other.len() - i,
    {
        let o = &other[i];
        let ghost prev = views_of(merged@);
        let ghost step = merge_step(prev, dest@, other@[i as int], ip_map@);
        let remapped: Option<Vec<u128>> = match &o.ip_address_ids {
            None => None,
            Some(ids) => Some(remap_id_list(ids, ip_map)),
        };
        let ghost remapped_view = match scope_of(other@[i as int]) {
            Some(ids) => Some(remap_ids(ids, ip_map@)),
            None => None,
        };
        assert(match &remapped {
            Some(v) => remapped_view == Some(v@),
            None => remapped_view is None,
        });
        let dropped = match &remapped {
            Some(r) => r.len() == 0,
            None => false,
        };
        if !dropped {
            match find_dest_assignment(dest, o.credential_id) {
                Some(d) => {
                    let scope: Option<Vec<u128>> = match (&dest[d].ip_address_ids, &remapped) {
                        (Some(dest_ids), Some(other_ids)) => Some(union_id_lists(dest_ids, other_ids)),
                        _ => None,
                    };
                    let ghost scope_view = match &scope {
                        Some(v) => Some(v@),
                        None => None,
                    };
                    assert(scope_view == broadest_scope(scope_of(dest@[d as int]), remapped_view));
                    let found = find_assignment(&merged, o.credential_id);
                    match found {
                        Some(j) => {
                            merged.set(j, CredentialAssignment { credential_id: o.credential_id, ip_address_ids: scope });
                            assert(views_of(merged@) =~= prev.update(j as int, (o.credential_id, scope_view)));
                        },
                        None => {},
                    }
                    assert(views_of(merged@) == step.0);
                },
                None => {
                    merged.push(CredentialAssignment { credential_id: o.credential_id, ip_address_ids: remapped });
                    assert(views_of(merged@) =~= prev.push((o.credential_id, remapped_view)));
                    assert(views_of(merged@) == step.0);
                },
            }
            migrated = migrated + 1;
        } else {
            assert(views_of(merged@) == step.0);
        }
        assert(step.1 == !dropped);
        assert(merge_all(dest@, other@, ip_map@, i + 1) == (step.0, if step.1 {
            merge_all(dest@, other@, ip_map@, i as int).1 + 1
        } else {
            merge_all(dest@, other@, ip_map@, i as int).1
        }));
        i = i + 1;
    }
    (merged, migrated)
}

// ---------------------------------------------------------------------------------------------
// Laws
// ---------------------------------------------------------------------------------------------

proof fn lemma_applied_key(c1: HostName, c2: HostName, i1: HostName, i2: HostName)
    requires
        name_key(c1) == name_key(c2),
        name_key(i1) == name_key(i2),
    ensures
        name_key(applied_name(c1, i1)) == name_key(applied_name(c2, i2)),
{
}

proof fn lemma_hostname_rung_settles(n0: HostName, n: HostName, h: HostName)
    requires
        h is Hostname,
    ensures
        ({
            let n1 = applied_name(applied_name(n0, n), h);
            name_key(applied_name(applied_name(n1, n), h)) == name_key(n1)
        }),
{
}

/// Merging the same observation twice changes nothing the second time and reports no update:
/// the hostname, the name, every identification field and the source stay as the first merge
/// left them.
pub proof fn lemma_observing_twice_changes_nothing(h0: Host, incoming: Host, h1: Host, h2: Host)
    requires
        merged_into(h1, h0, incoming),
        merged_into(h2, h1, incoming),
    ensures
        !reports_update(h1.base, h2.base, incoming.base),
        opt_text(h2.base.hostname) == opt_text(h1.base.hostname),
        name_key(h2.base.name) == name_key(h1.base.name),
        h2.base.sys_descr == h1.base.sys_descr && h2.base.model == h1.base.model,
        h2.base.chassis_id == h1.base.chassis_id && h2.base.sys_name == h1.base.sys_name,
        h2.base.source == h1.base.source,
{
    let b0 = h0.base;
    let b1 = h1.base;
    let b2 = h2.base;
    let inc = incoming.base;
    crate::hosts::lemma_non_blank_is_not_blank(opt_text(inc.hostname));
    crate::hosts::lemma_non_blank_is_not_blank(opt_text(b1.hostname));
    assert(opt_text(b2.hostname) == opt_text(b1.hostname));
    let n = inc.name;
    let x1 = applied_name(b0.name, n);
    match b1.hostname {
        Some(s1) => {
            let s2 = b2.hostname->0;
            assert(s1@ == s2@);
            lemma_hostname_rung_settles(b0.name, n, HostName::Hostname(s1));
            lemma_applied_key(applied_name(b1.name, n), applied_name(b1.name, n), HostName::Hostname(s1), HostName::Hostname(s2));
        },
        None => {
            assert(b2.hostname is None);
        },
    }
}

proof fn lemma_first_view_has_id(merged: Seq<(u128, Option<Seq<u128>>)>, id: u128, j: int)
    requires
        0 <= j,
    ensures
        first_view_of(merged, id, j) matches Some(k) ==> j <= k < merged.len() && merged[k].0 == id,
    decreases merged.len() - j,
{
    if j < merged.len() && merged[j].0 != id {
        lemma_first_view_has_id(merged, id, j + 1);
    }
}

/// Consolidation never loses a destination credential assignment: the merged list starts with
/// the destination's assignments, of the same credentials, in the same order.
pub proof fn lemma_destination_assignments_survive(
    dest: Seq<CredentialAssignment>,
    other: Seq<CredentialAssignment>,
    map: Seq<IdMapping>,
    n: int,
)
    requires
        0 <= n <= other.len(),
    ensures
        merge_all(dest, other, map, n).0.len() >= dest.len(),
        forall|k: int|
            0 <= k < dest.len() ==> (#[trigger] merge_all(dest, other, map, n).0[k]).0
                == dest[k].credential_id,
    decreases n,
{
    if n > 0 {
        lemma_destination_assignments_survive(dest, other, map, n - 1);
        let merged = merge_all(dest, other, map, n - 1).0;
        lemma_first_view_has_id(merged, other[n - 1].credential_id, 0);
        let next = merge_step(merged, dest, other[n - 1], map).0;
        assert forall|k: int| 0 <= k < dest.len() implies (#[trigger] merge_all(dest, other, map, n).0[k]).0
            == dest[k].credential_id by {
            assert(merge_all(dest, other, map, n).0 == next);
            assert(merged[k].0 == dest[k].credential_id);
        }
    }
}

/// Where both hosts hold a credential and either holds it for every address, the merged
/// assignment covers every address; where both list addresses, the merged one lists every
/// address of the destination's.
pub proof fn lemma_broadest_scope_wins(dest: Option<Seq<u128>>, other: Option<Seq<u128>>)
    ensures
        (dest is None || other is None) ==> broadest_scope(dest, other) is None,
        (dest is Some && other is Some) ==> (broadest_scope(dest, other) is Some && (forall|k: int|
            0 <= k < dest->0.len() ==> broadest_scope(dest, other)->0.contains(
                #[trigger] dest->0[k],
            ))),
{
    if let (Some(d), Some(o)) = (dest, other) {
        lemma_union_keeps_base(d, o);
    }
}

proof fn lemma_union_keeps_base(base: Seq<u128>, more: Seq<u128>)
    ensures
        forall|k: int| 0 <= k < base.len() ==> union_ids(base, more).contains(#[trigger] base[k]),
    decreases more.len(),
{
    if more.len() > 0 {
        let next = if base.contains(more[0]) {
            base
        } else {
            base.push(more[0])
        };
        lemma_union_keeps_base(next, more.drop_first());
        assert forall|k: int| 0 <= k < base.len() implies union_ids(base, more).contains(#[trigger] base[k]) by {
            assert(next[k] == base[k]);
        }
    }
}

} // verus!
