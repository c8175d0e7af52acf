//! Hosts: what a host is named, who said so, and what it is called when it has no name.
//!
//! The stored name ranks its sources; the display-name ladder reads the stored name first and
//! then the best identifying evidence the host carries, so every surface calls a host the same
//! thing.

use vstd::prelude::*;
use crate::clock::{new_uuid, now_micros};
use crate::lldp::opt_text;
use crate::net::{IpAddress, ip_text};
use crate::text::{trim_spec, trim_str, string_of, is_blank, copy_text};

verus! {

broadcast use vstd::string::group_string_axioms;

// ---------------------------------------------------------------------------------------------
// Provenance
// ---------------------------------------------------------------------------------------------

/// A probe a scan reads a value with.
#[derive(Debug, Clone, Copy, PartialEq, Eq, Hash, Structural)]
pub enum ClientProbe {
    Snmp,
}

/// Where a value came from.
#[derive(Debug, Clone, Copy, PartialEq, Eq, Hash, Structural)]
pub enum AttributeSource {
    /// Nothing says who supplied it.
    Unspecified,
    /// A hostname the host resolved to or reported.
    Hostname,
    /// A controller integration that manages the device.
    Integration,
    /// A person typed it.
    Manual,
    /// A scan read it from the device.
    Probe(ClientProbe),
}

/// A value with its provenance.
#[derive(Debug, Clone, PartialEq, Eq)]
pub struct Attributed {
    pub value: String,
    pub source: AttributeSource,
}

impl Attributed {
    pub fn new(value: String, source: AttributeSource) -> (r: Self)
        ensures
            r.value == value && r.source == source,
    {
        Attributed { value, source }
    }
}

/// The text of an optional attributed value.
pub open spec fn attributed_text(a: Option<Attributed>) -> Option<Seq<char>> {
    match a {
        Some(v) => Some(v.value@),
        None => None,
    }
}

// ---------------------------------------------------------------------------------------------
// The stored name
// ---------------------------------------------------------------------------------------------

/// A host's stored name, by the source that supplied it.
#[derive(Debug, Clone, PartialEq, Eq)]
pub enum HostName {
    /// No name at all.
    Unnamed,
    /// A name nothing attributes.
    Unspecified(String),
    /// The hostname the host resolved to or reported.
    Hostname(String),
    /// The name a managing controller holds for the device.
    Integration(String),
    /// A name a person typed.
    Manual(String),
}

/// How strongly a name's source claims the field: a person's name over a controller's over a
/// hostname over an unattributed name over none.
pub open spec fn name_rank(n: HostName) -> nat {
    match n {
        HostName::Unnamed => 0,
        HostName::Unspecified(_) => 1,
        HostName::Hostname(_) => 2,
        HostName::Integration(_) => 3,
        HostName::Manual(_) => 4,
    }
}

/// The name's text; empty for `Unnamed`.
pub open spec fn name_text(n: HostName) -> Seq<char> {
    match n {
        HostName::Unnamed => Seq::empty(),
        HostName::Unspecified(s) => s@,
        HostName::Hostname(s) => s@,
        HostName::Integration(s) => s@,
        HostName::Manual(s) => s@,
    }
}

pub open spec fn name_source(n: HostName) -> AttributeSource {
    match n {
        HostName::Unnamed => AttributeSource::Unspecified,
        HostName::Unspecified(_) => AttributeSource::Unspecified,
        HostName::Hostname(_) => AttributeSource::Hostname,
        HostName::Integration(_) => AttributeSource::Integration,
        HostName::Manual(_) => AttributeSource::Manual,
    }
}

/// A name by its source and its text: two names are the same name when these agree.
pub open spec fn name_key(n: HostName) -> (nat, Seq<char>) {
    (name_rank(n), name_text(n))
}

/// Whether the name says nothing: unnamed, or only whitespace.
pub open spec fn name_is_blank(n: HostName) -> bool {
    trim_spec(name_text(n)).len() == 0
}

/// What storing `incoming` over `current` leaves: the incoming name when it is not blank and
/// its source ranks at least as high, otherwise the current one.
pub open spec fn applied_name(current: HostName, incoming: HostName) -> HostName {
    if !name_is_blank(incoming) && name_rank(incoming) >= name_rank(current) {
        incoming
    } else {
        current
    }
}

impl HostName {
    /// A name a person typed.
    pub fn manual(name: String) -> (r: Self)
        ensures
            r == HostName::Manual(name),
    {
        HostName::Manual(name)
    }

    /// No name.
    pub fn unnamed() -> (r: Self)
        ensures
            r == HostName::Unnamed,
    {
        HostName::Unnamed
    }

    /// The same name, from the same source.
    pub fn duplicate(&self) -> (r: Self)
        ensures
            r == *self,
    {
        match self {
            HostName::Unnamed => HostName::Unnamed,
            HostName::Unspecified(s) => HostName::Unspecified(s.clone()),
            HostName::Hostname(s) => HostName::Hostname(s.clone()),
            HostName::Integration(s) => HostName::Integration(s.clone()),
            HostName::Manual(s) => HostName::Manual(s.clone()),
        }
    }

    /// Who supplied the name; `Unspecified` for an unnamed host.
    pub fn source(&self) -> (r: AttributeSource)
        ensures
            r == name_source(*self),
    {
        match self {
            HostName::Unnamed => AttributeSource::Unspecified,
            HostName::Unspecified(_) => AttributeSource::Unspecified,
            HostName::Hostname(_) => AttributeSource::Hostname,
            HostName::Integration(_) => AttributeSource::Integration,
            HostName::Manual(_) => AttributeSource::Manual,
        }
    }

    /// The name's text, empty for an unnamed host.
    pub fn text(&self) -> (r: String)
        ensures
            r@ == name_text(*self),
    {
        match self {
            HostName::Unnamed => String::new(),
            HostName::Unspecified(s) => s.clone(),
            HostName::Hostname(s) => s.clone(),
            HostName::Integration(s) => s.clone(),
            HostName::Manual(s) => s.clone(),
        }
    }

    /// Whether the name says nothing.
    pub fn is_blank(&self) -> (r: bool)
        ensures
            r == name_is_blank(*self),
    {
        let t = self.text();
        is_blank(t.as_str())
    }

    fn rank(&self) -> (r: u8)
        ensures
            r == name_rank(*self),
    {
        match self {
            HostName::Unnamed => 0,
            HostName::Unspecified(_) => 1,
            HostName::Hostname(_) => 2,
            HostName::Integration(_) => 3,
            HostName::Manual(_) => 4,
        }
    }
}

// ---------------------------------------------------------------------------------------------
// Hosts
// ---------------------------------------------------------------------------------------------

/// What a host is. Ids are UUIDs as their 128-bit value.
#[derive(Debug, Clone)]
pub struct HostBase {
    pub network_id: u128,
    /// The stored display name.
    pub name: HostName,
    /// The hostname the host resolved to or reported.
    pub hostname: Option<String>,
    /// Whether the submission that carries this host read `hostname` itself, and so may
    /// overwrite a stored one, rather than repeating a name it heard.
    pub hostname_authoritative: bool,
    /// SNMP `sysName`, or the same field from a controller.
    pub sys_name: Option<Attributed>,
    /// The host's own LLDP chassis id.
    pub chassis_id: Option<Attributed>,
    pub manufacturer: Option<String>,
    pub model: Option<String>,
    pub serial_number: Option<String>,
    /// SNMP `sysDescr`.
    pub sys_descr: Option<String>,
    /// SNMP `sysObjectID`.
    pub sys_object_id: Option<String>,
    /// SNMP `sysLocation`.
    pub sys_location: Option<String>,
    /// SNMP `sysContact`.
    pub sys_contact: Option<String>,
    /// Where the device is managed.
    pub management_url: Option<String>,
    /// How the host entered the inventory.
    pub source: EntitySource,
    /// What a person wrote about the host.
    pub description: Option<String>,
    /// Whether a person hid the host from views.
    pub hidden: bool,
    /// The ids of the tags a person put on the host.
    pub tags: Vec<u128>,
}

/// How an entity entered the inventory.
#[derive(Debug, Clone, Copy, PartialEq, Eq, Hash, Structural)]
pub enum EntitySource {
    /// Created by a person.
    Manual,
    /// Found by a discovery.
    Discovery,
}

impl Default for HostBase {
    /// Nothing known, unnamed, and authoritative for its (absent) hostname.
    fn default() -> (r: Self)
        ensures
            r.network_id == 0 && r.name == HostName::Unnamed && r.hostname is None,
            r.hostname_authoritative,
            r.sys_name is None && r.chassis_id is None && r.manufacturer is None,
            r.model is None && r.serial_number is None && r.sys_descr is None,
            r.sys_object_id is None && r.sys_location is None && r.sys_contact is None,
            r.management_url is None && r.source == EntitySource::Manual,
            r.description is None && !r.hidden && r.tags@.len() == 0,
    {
        HostBase {
            network_id: 0,
            name: HostName::Unnamed,
            hostname: None,
            hostname_authoritative: true,
            sys_name: None,
            chassis_id: None,
            manufacturer: None,
            model: None,
            serial_number: None,
            sys_descr: None,
            sys_object_id: None,
            sys_location: None,
            sys_contact: None,
            management_url: None,
            source: EntitySource::Manual,
            description: None,
            hidden: false,
            tags: Vec::new(),
        }
    }
}

impl HostBase {
    /// Store `name` if it outranks (or equals) the current name's source and says something.
    pub fn apply_name(&mut self, name: HostName)
        ensures
            final(self).name == applied_name(old(self).name, name),
            final(self).hostname == old(self).hostname,
            final(self).hostname_authoritative == old(self).hostname_authoritative,
            final(self).sys_name == old(self).sys_name,
            final(self).chassis_id == old(self).chassis_id,
            final(self).network_id == old(self).network_id,
            final(self).manufacturer == old(self).manufacturer,
            final(self).model == old(self).model,
            final(self).serial_number == old(self).serial_number,
            final(self).sys_descr == old(self).sys_descr,
            final(self).sys_object_id == old(self).sys_object_id,
            final(self).sys_location == old(self).sys_location,
            final(self).sys_contact == old(self).sys_contact,
            final(self).management_url == old(self).management_url,
            final(self).source == old(self).source,
            *final(self) == (HostBase { name: applied_name(old(self).name, name), ..*old(self) }),
    {
        if !name.is_blank() && name.rank() >= self.name.rank() {
            self.name = name;
        }
    }
}

/// A stored host.
#[derive(Debug, Clone)]
pub struct Host {
    pub id: u128,
    pub created_at: i64,
    pub updated_at: i64,
    /// When a discovery last observed this host.
    pub last_seen_at: i64,
    pub base: HostBase,
}

impl Host {
    /// A record for `base` with id `id`, created, updated and last seen at `now`.
    pub fn stamped(base: HostBase, id: u128, now: i64) -> (r: Self)
        ensures
            r == (Host { id, created_at: now, updated_at: now, last_seen_at: now, base }),
    {
        Host { id, created_at: now, updated_at: now, last_seen_at: now, base }
    }

    /// A new record for `base`, with a fresh id, created and updated now; nothing when the
    /// machine's clock cannot say what now is (see [`now_micros`]).
    pub fn new(base: HostBase) -> (r: Option<Self>)
        ensures
            r matches Some(h) ==> h.base == base && h.created_at == h.updated_at && h.updated_at
                == h.last_seen_at && h.created_at >= 0,
    {
        match now_micros() {
            Some(now) => Some(Host::stamped(base, new_uuid(), now)),
            None => None,
        }
    }

    /// Whether discovery manages this host (it created it, or has since observed it).
    pub fn is_discovery_managed(&self) -> (r: bool)
        ensures
            r == (self.base.source == EntitySource::Discovery),
    {
        match self.base.source {
            EntitySource::Discovery => true,
            EntitySource::Manual => false,
        }
    }

    /// An update keeps what the stored record fixed at creation: its source, and its creation
    /// and update times.
    pub fn preserve_immutable_fields(&mut self, existing: &Host)
        ensures
            final(self).base.source == existing.base.source,
            final(self).created_at == existing.created_at,
            final(self).updated_at == existing.updated_at,
            final(self).id == old(self).id,
            final(self).last_seen_at == old(self).last_seen_at,
            final(self).base == (HostBase { source: existing.base.source, ..old(self).base }),
    {
        self.base.source = existing.base.source;
        self.created_at = existing.created_at;
        self.updated_at = existing.updated_at;
    }
}

// ---------------------------------------------------------------------------------------------
// The stored row
// ---------------------------------------------------------------------------------------------

/// The value one column of a stored host row takes.
#[derive(Debug, Clone, PartialEq, Eq)]
pub enum ColumnValue {
    Uuid(u128),
    /// Microseconds since the Unix epoch.
    Timestamp(i64),
    Text(String),
    OptionalText(Option<String>),
    /// Who supplied the stored name.
    NameSource(AttributeSource),
    Source(EntitySource),
    Bool(bool),
}

/// Whether a column value is the text `s`.
pub open spec fn is_text_column(v: ColumnValue, s: Seq<char>) -> bool {
    v matches ColumnValue::Text(t) && t@ == s
}

/// Whether a column value is the optional text `s`.
pub open spec fn is_optional_text_column(v: ColumnValue, s: Option<Seq<char>>) -> bool {
    v matches ColumnValue::OptionalText(t) && opt_text(t) == s
}

impl Host {
    /// The host's row: its column names, and beside each the value that column takes. The tags
    /// and the hostname's authority are no columns (the tags live in their own table, and the
    /// authority only qualifies an incoming observation).
    pub fn to_params(&self) -> (r: (Vec<&'static str>, Vec<ColumnValue>))
        ensures
            r.0@.len() == 21 && r.1@.len() == 21,
            r.0@[0]@ == "id"@ && r.1@[0] == ColumnValue::Uuid(self.id),
            r.0@[1]@ == "created_at"@ && r.1@[1] == ColumnValue::Timestamp(self.created_at),
            r.0@[2]@ == "updated_at"@ && r.1@[2] == ColumnValue::Timestamp(self.updated_at),
            r.0@[3]@ == "name"@ && is_text_column(r.1@[3], name_text(self.base.name)),
            r.0@[4]@ == "name_source"@ && r.1@[4] == ColumnValue::NameSource(name_source(self.base.name)),
            r.0@[5]@ == "description"@ && is_optional_text_column(r.1@[5], opt_text(self.base.description)),
            r.0@[6]@ == "network_id"@ && r.1@[6] == ColumnValue::Uuid(self.base.network_id),
            r.0@[7]@ == "source"@ && r.1@[7] == ColumnValue::Source(self.base.source),
            r.0@[8]@ == "hostname"@ && is_optional_text_column(r.1@[8], opt_text(self.base.hostname)),
            r.0@[9]@ == "hidden"@ && r.1@[9] == ColumnValue::Bool(self.base.hidden),
            r.0@[10]@ == "sys_descr"@ && is_optional_text_column(r.1@[10], opt_text(self.base.sys_descr)),
            r.0@[11]@ == "sys_object_id"@ && is_optional_text_column(r.1@[11], opt_text(self.base.sys_object_id)),
            r.0@[12]@ == "sys_location"@ && is_optional_text_column(r.1@[12], opt_text(self.base.sys_location)),
            r.0@[13]@ == "sys_contact"@ && is_optional_text_column(r.1@[13], opt_text(self.base.sys_contact)),
            r.0@[14]@ == "management_url"@ && is_optional_text_column(r.1@[14], opt_text(self.base.management_url)),
            r.0@[15]@ == "chassis_id"@ && is_optional_text_column(r.1@[15], attributed_text(self.base.chassis_id)),
            r.0@[16]@ == "sys_name"@ && is_optional_text_column(r.1@[16], attributed_text(self.base.sys_name)),
            r.0@[17]@ == "manufacturer"@ && is_optional_text_column(r.1@[17], opt_text(self.base.manufacturer)),
            r.0@[18]@ == "model"@ && is_optional_text_column(r.1@[18], opt_text(self.base.model)),
            r.0@[19]@ == "serial_number"@ && is_optional_text_column(r.1@[19], opt_text(self.base.serial_number)),
            r.0@[20]@ == "last_seen_at"@ && r.1@[20] == ColumnValue::Timestamp(self.last_seen_at),
    {
        let b = &self.base;
        let columns: Vec<&'static str> = vec![
            "id", "created_at", "updated_at", "name", "name_source", "description", "network_id",
            "source", "hostname", "hidden", "sys_descr", "sys_object_id", "sys_location",
            "sys_contact", "management_url", "chassis_id", "sys_name", "manufacturer", "model",
            "serial_number", "last_seen_at",
        ];
        let values: Vec<ColumnValue> = vec![
            ColumnValue::Uuid(self.id),
            ColumnValue::Timestamp(self.created_at),
            ColumnValue::Timestamp(self.updated_at),
            ColumnValue::Text(b.name.text()),
            ColumnValue::NameSource(b.name.source()),
            ColumnValue::OptionalText(copy_text(&b.description)),
            ColumnValue::Uuid(b.network_id),
            ColumnValue::Source(b.source),
            ColumnValue::OptionalText(copy_text(&b.hostname)),
            ColumnValue::Bool(b.hidden),
            ColumnValue::OptionalText(copy_text(&b.sys_descr)),
            ColumnValue::OptionalText(copy_text(&b.sys_object_id)),
            ColumnValue::OptionalText(copy_text(&b.sys_location)),
            ColumnValue::OptionalText(copy_text(&b.sys_contact)),
            ColumnValue::OptionalText(copy_text(&b.management_url)),
            ColumnValue::OptionalText(attributed_value(&b.chassis_id)),
            ColumnValue::OptionalText(attributed_value(&b.sys_name)),
            ColumnValue::OptionalText(copy_text(&b.manufacturer)),
            ColumnValue::OptionalText(copy_text(&b.model)),
            ColumnValue::OptionalText(copy_text(&b.serial_number)),
            ColumnValue::Timestamp(self.last_seen_at),
        ];
        (columns, values)
    }
}

// ---------------------------------------------------------------------------------------------
// The display-name ladder
// ---------------------------------------------------------------------------------------------

/// One rung of the display-name ladder, highest first.
#[derive(Debug, Clone, Copy, PartialEq, Eq, Hash, Structural)]
pub enum HostNameRung {
    /// The host's stored name, whoever supplied it.
    Name,
    /// The hostname the host resolved to or reported.
    Hostname,
    /// SNMP `sysName`, or the same field from a controller.
    SysName,
    /// The chassis id.
    ChassisId,
    /// The host's first address.
    Address,
}

/// What one rung of the ladder holds for a particular host.
#[derive(Debug, Clone, PartialEq, Eq)]
pub struct HostNameLadderEntry {
    pub rung: HostNameRung,
    /// The rung's value, or `None` when the host has nothing there.
    pub value: Option<String>,
    /// Where the value came from; `None` when there is no value, and for the rungs whose field
    /// carries no provenance.
    pub source: Option<AttributeSource>,
}

impl HostNameLadderEntry {
    /// An entry; the source is dropped when there is no value to attribute.
    pub fn new(rung: HostNameRung, value: Option<String>, source: Option<AttributeSource>) -> (r:
        Self)
        ensures
            r.rung == rung,
            r.value == value,
            r.source == (if value is Some {
                source
            } else {
                None
            }),
    {
        let source = if value.is_some() {
            source
        } else {
            None
        };
        HostNameLadderEntry { rung, value, source }
    }
}

/// A value trimmed, and absent when that leaves nothing.
pub open spec fn non_blank(s: Seq<char>) -> Option<Seq<char>> {
    if trim_spec(s).len() > 0 {
        Some(trim_spec(s))
    } else {
        None
    }
}

pub open spec fn non_blank_opt(s: Option<Seq<char>>) -> Option<Seq<char>> {
    match s {
        Some(t) => non_blank(t),
        None => None,
    }
}

/// A value that survives `non_blank` is itself non-blank.
pub proof fn lemma_non_blank_is_not_blank(s: Option<Seq<char>>)
    ensures
        non_blank_opt(s) matches Some(t) ==> trim_spec(t).len() > 0,
{
    if let Some(t) = s {
        crate::text::lemma_trimmed_idempotent(t, true);
    }
}

/// The value of each rung for a host whose first address is `address`, highest rung first.
pub open spec fn ladder_values(b: HostBase, address: Option<IpAddress>) -> Seq<Option<Seq<char>>> {
    seq![
        if name_is_blank(b.name) { None } else { Some(name_text(b.name)) },
        non_blank_opt(opt_text(b.hostname)),
        non_blank_opt(attributed_text(b.sys_name)),
        non_blank_opt(attributed_text(b.chassis_id)),
        match address {
            Some(a) => Some(ip_text(a)),
            None => None,
        },
    ]
}

/// The provenance each rung's field carries, before a missing value drops it.
pub open spec fn ladder_sources(b: HostBase) -> Seq<Option<AttributeSource>> {
    seq![
        Some(name_source(b.name)),
        None,
        match b.sys_name {
            Some(v) => Some(v.source),
            None => None,
        },
        match b.chassis_id {
            Some(v) => Some(v.source),
            None => None,
        },
        None,
    ]
}

pub open spec fn ladder_rungs() -> Seq<HostNameRung> {
    seq![
        HostNameRung::Name,
        HostNameRung::Hostname,
        HostNameRung::SysName,
        HostNameRung::ChassisId,
        HostNameRung::Address,
    ]
}

/// The first entry from `i` on that holds a value, with its rung.
pub open spec fn first_value_from(ladder: Seq<HostNameLadderEntry>, i: int) -> Option<
    (Seq<char>, HostNameRung),
>
    decreases ladder.len() - i,
{
    if i < 0 || i >= ladder.len() {
        None
    } else if ladder[i].value is Some {
        Some((ladder[i].value->0@, ladder[i].rung))
    } else {
        first_value_from(ladder, i + 1)
    }
}

/// The value a ladder resolves to and the rung it came from: the first entry holding a value.
pub fn resolve_name_ladder(ladder: &[HostNameLadderEntry]) -> (r: Option<(String, HostNameRung)>)
    ensures
        match r {
            Some((v, rung)) => first_value_from(ladder@, 0) == Some((v@, rung)),
            None => first_value_from(ladder@, 0) is None,
        },
{
    let mut i: usize = 0;
    while i < ladder.len()
        invariant
            i <= ladder@.len(),
            first_value_from(ladder@, 0) == first_value_from(ladder@, i as int),
        decreases ladder.len() - i,
    {
        match &ladder[i].value {
            Some(v) => {
                return Some((v.clone(), ladder[i].rung));
            },
            None => {},
        }
        i = i + 1;
    }
    None
}

fn non_blank_of(value: &Option<String>) -> (r: Option<String>)
    ensures
        opt_text(r) == non_blank_opt(opt_text(*value)),
{
    match value {
        Some(v) => {
            let t = trim_str(v.as_str());
            if t.as_str().is_empty() {
                None
            } else {
                Some(t)
            }
        },
        None => None,
    }
}

fn attributed_value(a: &Option<Attributed>) -> (r: Option<String>)
    ensures
        opt_text(r) == attributed_text(*a),
{
    match a {
        Some(v) => Some(v.value.clone()),
        None => None,
    }
}

fn attributed_source(a: &Option<Attributed>) -> (r: Option<AttributeSource>)
    ensures
        r == (match *a {
            Some(v) => Some(v.source),
            None => None,
        }),
{
    match a {
        Some(v) => Some(v.source),
        None => None,
    }
}

/// Whether `ladder` is the ladder of `b` with first address `address`: the five rungs in
/// order, each with its value, and each with its field's provenance exactly when it has a value.
pub open spec fn is_ladder_of(ladder: Seq<HostNameLadderEntry>, b: HostBase, address: Option<IpAddress>) -> bool {
    &&& ladder.len() == 5
    &&& forall|i: int|
        0 <= i < 5 ==> {
            &&& (#[trigger] ladder[i]).rung == ladder_rungs()[i]
            &&& opt_text(ladder[i].value) == ladder_values(b, address)[i]
            &&& ladder[i].source == (if ladder[i].value is Some {
                ladder_sources(b)[i]
            } else {
                None
            })
        }
}

impl Host {
    /// Every rung of the display-name ladder for this host, highest first: the stored name,
    /// the hostname, `sysName`, the chassis id (each trimmed, and empty when blank), and the
    /// first of `addresses`.
    pub fn name_ladder(&self, addresses: &[IpAddress]) -> (r: [HostNameLadderEntry; 5])
        ensures
            is_ladder_of(r@, self.base, if addresses@.len() > 0 {
                Some(addresses@[0])
            } else {
                None
            }),
    {
        let base = &self.base;
        let name_value = if base.name.is_blank() {
            None
        } else {
            Some(base.name.text())
        };
        let hostname = non_blank_of(&base.hostname);
        let sys_name = non_blank_of(&attributed_value(&base.sys_name));
        let chassis_id = non_blank_of(&attributed_value(&base.chassis_id));
        let address = if addresses.len() > 0 {
            Some(string_of(addresses[0].text().as_slice()))
        } else {
            None
        };
        let r = [
            HostNameLadderEntry::new(HostNameRung::Name, name_value, Some(base.name.source())),
            HostNameLadderEntry::new(HostNameRung::Hostname, hostname, None),
            HostNameLadderEntry::new(
                HostNameRung::SysName,
                sys_name,
                attributed_source(&base.sys_name),
            ),
            HostNameLadderEntry::new(
                HostNameRung::ChassisId,
                chassis_id,
                attributed_source(&base.chassis_id),
            ),
            HostNameLadderEntry::new(HostNameRung::Address, address, None),
        ];
        proof {
            let address_opt = if addresses@.len() > 0 {
                Some(addresses@[0])
            } else {
                None
            };
            assert forall|i: int| 0 <= i < 5 implies {
                &&& (#[trigger] r@[i]).rung == ladder_rungs()[i]
                &&& opt_text(r@[i].value) == ladder_values(self.base, address_opt)[i]
                &&& r@[i].source == (if r@[i].value is Some {
                    ladder_sources(self.base)[i]
                } else {
                    None
                })
            } by {
                if i == 0 {
                } else if i == 1 {
                } else if i == 2 {
                } else if i == 3 {
                } else {
                }
            }
        }
        r
    }

    /// What to call this host and which rung said so; `None` when nothing identifies it.
    pub fn resolved_name(&self, addresses: &[IpAddress]) -> (r: Option<(String, HostNameRung)>)
        ensures
            exists|ladder: Seq<HostNameLadderEntry>|
                is_ladder_of(ladder, self.base, if addresses@.len() > 0 {
                    Some(addresses@[0])
                } else {
                    None
                }) && match r {
                    Some((v, rung)) => first_value_from(ladder, 0) == Some((v@, rung)),
                    None => first_value_from(ladder, 0) is None,
                },
    {
        let ladder = self.name_ladder(addresses);
        resolve_name_ladder(&ladder)
    }

    /// What to call this host: its name, or the best identifying evidence it carries; `None`
    /// rather than an empty name when nothing identifies it.
    pub fn display_name(&self, addresses: &[IpAddress]) -> (r: Option<String>)
        ensures
            exists|ladder: Seq<HostNameLadderEntry>|
                is_ladder_of(ladder, self.base, if addresses@.len() > 0 {
                    Some(addresses@[0])
                } else {
                    None
                }) && match r {
                    Some(v) => first_value_from(ladder, 0) matches Some(p) && p.0 == v@,
                    None => first_value_from(ladder, 0) is None,
                },
    {
        match self.resolved_name(addresses) {
            Some((value, _)) => Some(value),
            None => None,
        }
    }
}

/// The first value of a ladder is the first rung value that is present.
pub open spec fn first_present(values: Seq<Option<Seq<char>>>, i: int) -> Option<(Seq<char>, int)>
    decreases values.len() - i,
{
    if i < 0 || i >= values.len() {
        None
    } else if values[i] is Some {
        Some((values[i]->0, i))
    } else {
        first_present(values, i + 1)
    }
}

proof fn lemma_first_value_of_ladder(
    ladder: Seq<HostNameLadderEntry>,
    b: HostBase,
    address: Option<IpAddress>,
    i: int,
)
    requires
        is_ladder_of(ladder, b, address),
        0 <= i <= 5,
    ensures
        first_value_from(ladder, i) == (match first_present(ladder_values(b, address), i) {
            Some((v, k)) => Some((v, ladder_rungs()[k])),
            None => None,
        }),
    decreases 5 - i,
{
    if i < 5 {
        assert(opt_text(ladder[i].value) == ladder_values(b, address)[i]);
        lemma_first_value_of_ladder(ladder, b, address, i + 1);
    }
}

/// A host with a stored name that says something is called by that name, whatever else it
/// carries; the rungs below it keep their values and provenance.
pub proof fn lemma_a_stored_name_wins(
    ladder: Seq<HostNameLadderEntry>,
    b: HostBase,
    address: Option<IpAddress>,
)
    requires
        is_ladder_of(ladder, b, address),
        !name_is_blank(b.name),
    ensures
        first_value_from(ladder, 0) == Some((name_text(b.name), HostNameRung::Name)),
        ladder[0].source == Some(name_source(b.name)),
{
    lemma_first_value_of_ladder(ladder, b, address, 0);
    assert(ladder[0].rung == ladder_rungs()[0]);
}

/// The rungs stand highest first in one order, the stored name, the hostname, `sysName`, the
/// chassis id, the address, each holding its own field trimmed; so a host with no name and no
/// hostname is called by its `sysName` when it has one, whatever chassis id or address it
/// carries, and by its chassis id only when it has no `sysName`.
pub proof fn lemma_sys_name_outranks_the_chassis_id(
    ladder: Seq<HostNameLadderEntry>,
    b: HostBase,
    address: Option<IpAddress>,
)
    requires
        is_ladder_of(ladder, b, address),
    ensures
        ladder[0].rung == HostNameRung::Name,
        ladder[1].rung == HostNameRung::Hostname,
        ladder[2].rung == HostNameRung::SysName,
        ladder[3].rung == HostNameRung::ChassisId,
        ladder[4].rung == HostNameRung::Address,
        b.sys_name is Some && trim_spec(b.sys_name->0.value@).len() > 0 ==> opt_text(ladder[2].value)
            == Some(trim_spec(b.sys_name->0.value@)),
        b.chassis_id is Some && trim_spec(b.chassis_id->0.value@).len() > 0 ==> opt_text(ladder[3].value)
            == Some(trim_spec(b.chassis_id->0.value@)),
        name_is_blank(b.name) && (b.hostname is None || trim_spec(b.hostname->0@).len() == 0)
            && b.sys_name is Some && trim_spec(b.sys_name->0.value@).len() > 0 ==> first_value_from(
            ladder,
            0,
        ) == Some((trim_spec(b.sys_name->0.value@), HostNameRung::SysName)),
        name_is_blank(b.name) && (b.hostname is None || trim_spec(b.hostname->0@).len() == 0)
            && (b.sys_name is None || trim_spec(b.sys_name->0.value@).len() == 0) && b.chassis_id is Some
            && trim_spec(b.chassis_id->0.value@).len() > 0 ==> first_value_from(ladder, 0) == Some(
            (trim_spec(b.chassis_id->0.value@), HostNameRung::ChassisId),
        ),
{
    assert(ladder[0].rung == ladder_rungs()[0]);
    assert(ladder[1].rung == ladder_rungs()[1]);
    assert(ladder[2].rung == ladder_rungs()[2]);
    assert(ladder[3].rung == ladder_rungs()[3]);
    assert(ladder[4].rung == ladder_rungs()[4]);
    assert(opt_text(ladder[2].value) == ladder_values(b, address)[2]);
    assert(opt_text(ladder[3].value) == ladder_values(b, address)[3]);
    lemma_first_value_of_ladder(ladder, b, address, 0);
    let v = ladder_values(b, address);
    if name_is_blank(b.name) && (b.hostname is None || trim_spec(b.hostname->0@).len() == 0) {
        assert(v[0] is None);
        assert(v[1] is None);
        assert(first_present(v, 0) == first_present(v, 1));
        assert(first_present(v, 1) == first_present(v, 2));
        if b.sys_name is None || trim_spec(b.sys_name->0.value@).len() == 0 {
            assert(v[2] is None);
            assert(first_present(v, 2) == first_present(v, 3));
        }
    }
}

/// A host is called nothing exactly when every rung is empty, and a rung without a value never
/// carries a source.
pub proof fn lemma_nameless_exactly_when_every_rung_is_empty(
    ladder: Seq<HostNameLadderEntry>,
    b: HostBase,
    address: Option<IpAddress>,
)
    requires
        is_ladder_of(ladder, b, address),
    ensures
        (first_value_from(ladder, 0) is None) == (forall|i: int|
            0 <= i < 5 ==> (#[trigger] ladder[i]).value is None),
        forall|i: int| 0 <= i < 5 && (#[trigger] ladder[i]).value is None ==> ladder[i].source is None,
{
    lemma_first_value_of_ladder(ladder, b, address, 0);
    let v = ladder_values(b, address);
    assert forall|i: int| 0 <= i < 5 implies ((#[trigger] ladder[i]).value is None == v[i] is None) by {
        assert(opt_text(ladder[i].value) == v[i]);
    }
    assert(ladder[0].value is None == v[0] is None);
    assert(ladder[1].value is None == v[1] is None);
    assert(ladder[2].value is None == v[2] is None);
    assert(ladder[3].value is None == v[3] is None);
    assert(ladder[4].value is None == v[4] is None);
    if v[0] is None && v[1] is None && v[2] is None && v[3] is None && v[4] is None {
        assert(first_present(v, 5) is None);
        assert(first_present(v, 4) is None);
        assert(first_present(v, 3) is None);
        assert(first_present(v, 2) is None);
        assert(first_present(v, 1) is None);
        assert(first_present(v, 0) is None);
    }
}

} // verus!
