//! LLDP, CDP and FDB link resolution: for each interface that names a neighbour, which arm of
//! the ladder applies, what the far-end device and port resolved to, what the row's neighbour
//! becomes, and what an operator is told about what could not be placed.
//!
//! The lookups themselves run against the database; what they answered is handed in here.

use vstd::prelude::*;
use crate::interfaces::{
    Interface, InterfaceBase, Neighbor, chassis_arm_applies, cdp_arm_applies, single_fdb_mac,
};
use crate::lldp::{IdentityResolution, usable_identifier, usable_spec, opt_text, chassis_identifier_text};
use crate::text::{trim_spec, trim_str, copy_text};

verus! {

broadcast use vstd::string::group_string_axioms;

/// Why a far end could not be placed.
#[derive(Debug, Clone, Copy, PartialEq, Eq, Structural)]
pub enum UnresolvedReason {
    /// No lookup applies to what was advertised: a gap on our side.
    NoStrategy,
    /// The lookups ran and found nothing: a gap in what has been scanned.
    NotFound,
    /// The identifier names several entities.
    Ambiguous,
}

impl UnresolvedReason {
    /// `None` for a resolution that succeeded: there is nothing to report.
    pub fn from_resolution(resolution: IdentityResolution) -> (r: Option<Self>)
        ensures
            r == (match resolution {
                IdentityResolution::Resolved(_) => None,
                IdentityResolution::NoStrategy => Some(UnresolvedReason::NoStrategy),
                IdentityResolution::NotFound => Some(UnresolvedReason::NotFound),
                IdentityResolution::Ambiguous => Some(UnresolvedReason::Ambiguous),
            }),
    {
        match resolution {
            IdentityResolution::Resolved(_) => None,
            IdentityResolution::NoStrategy => Some(UnresolvedReason::NoStrategy),
            IdentityResolution::NotFound => Some(UnresolvedReason::NotFound),
            IdentityResolution::Ambiguous => Some(UnresolvedReason::Ambiguous),
        }
    }
}

/// A far-end device no lookup placed: which of our devices saw it, on which port, and what it
/// advertised.
#[derive(Debug, Clone, PartialEq, Eq)]
pub struct UnmatchedNeighbour {
    pub host_id: u128,
    pub if_descr: Option<String>,
    pub identifier: String,
    pub sys_name: Option<String>,
}

/// A far end whose device is known but whose port is not.
#[derive(Debug, Clone, PartialEq, Eq)]
pub struct UnresolvedPort {
    pub host_id: u128,
    pub if_descr: Option<String>,
    pub remote_host_id: u128,
    pub port_id: Option<String>,
    /// The advertised port description, the last-resort tier.
    pub port_desc: Option<String>,
}

/// What a resolution pass reports to the operator.
#[derive(Debug, Clone, PartialEq, Eq)]
pub enum ResolutionWarning {
    LldpNeighbourNotFound(UnmatchedNeighbour),
    LldpNeighbourAmbiguous(UnmatchedNeighbour),
    LldpPortNoStrategy(UnresolvedPort),
    LldpPortNotFound(UnresolvedPort),
    LldpPortAmbiguous(UnresolvedPort),
}

/// The warning for a far end no strategy could place; `None` for `NoStrategy`, which is a
/// divergence on our side rather than a device anyone can go and scan.
pub fn unmatched_neighbour_warning(
    interface: &Interface,
    identifier: String,
    sys_name: Option<String>,
    reason: UnresolvedReason,
) -> (r: Option<ResolutionWarning>)
    ensures
        ({
            let d = UnmatchedNeighbour {
                host_id: interface.base.host_id,
                if_descr: interface.base.if_descr,
                identifier,
                sys_name,
            };
            r == match reason {
                UnresolvedReason::NotFound => Some(ResolutionWarning::LldpNeighbourNotFound(d)),
                UnresolvedReason::Ambiguous => Some(ResolutionWarning::LldpNeighbourAmbiguous(d)),
                UnresolvedReason::NoStrategy => None,
            }
        }),
{
    let detail = UnmatchedNeighbour {
        host_id: interface.base.host_id,
        if_descr: copy_text(&interface.base.if_descr),
        identifier,
        sys_name,
    };
    match reason {
        UnresolvedReason::NotFound => Some(ResolutionWarning::LldpNeighbourNotFound(detail)),
        UnresolvedReason::Ambiguous => Some(ResolutionWarning::LldpNeighbourAmbiguous(detail)),
        UnresolvedReason::NoStrategy => None,
    }
}

/// The warning for a neighbour whose far-end device is known but whose port is not; every
/// reason is reported, since each names a different fix.
pub fn unresolved_port_warning(
    interface: &Interface,
    remote_host_id: u128,
    port_id: Option<String>,
    reason: UnresolvedReason,
) -> (r: ResolutionWarning)
    ensures
        ({
            let d = UnresolvedPort {
                host_id: interface.base.host_id,
                if_descr: interface.base.if_descr,
                remote_host_id,
                port_id,
                port_desc: interface.base.lldp_port_desc,
            };
            r == match reason {
                UnresolvedReason::NoStrategy => ResolutionWarning::LldpPortNoStrategy(d),
                UnresolvedReason::NotFound => ResolutionWarning::LldpPortNotFound(d),
                UnresolvedReason::Ambiguous => ResolutionWarning::LldpPortAmbiguous(d),
            }
        }),
{
    let detail = UnresolvedPort {
        host_id: interface.base.host_id,
        if_descr: copy_text(&interface.base.if_descr),
        remote_host_id,
        port_id,
        port_desc: copy_text(&interface.base.lldp_port_desc),
    };
    match reason {
        UnresolvedReason::NoStrategy => ResolutionWarning::LldpPortNoStrategy(detail),
        UnresolvedReason::NotFound => ResolutionWarning::LldpPortNotFound(detail),
        UnresolvedReason::Ambiguous => ResolutionWarning::LldpPortAmbiguous(detail),
    }
}

/// Whether a port description is worth trying as a port name: not blank, and no control
/// character or replacement character in it.
pub open spec fn desc_worth_spec(desc: Option<Seq<char>>) -> Option<Seq<char>> {
    match desc {
        Some(d) => if trim_spec(d).len() > 0 && usable_spec(d) {
            Some(d)
        } else {
            None
        },
        None => None,
    }
}

/// The port description, if it is worth offering to the last-resort tier as a name.
pub fn desc_worth_matching(desc: Option<&str>) -> (r: Option<&str>)
    ensures
        match r {
            Some(d) => desc == Some(d) && desc_worth_spec(Some(d@)) == Some(d@),
            None => desc_worth_spec(crate::lldp::opt_str(desc)) is None,
        },
{
    match desc {
        Some(d) => {
            let t = trim_str(d);
            if !t.as_str().is_empty() && usable_identifier(d) {
                Some(d)
            } else {
                None
            }
        },
        None => None,
    }
}

// ---------------------------------------------------------------------------------------------
// One row of the LLDP/CDP pass
// ---------------------------------------------------------------------------------------------

/// Which arm of the ladder a row takes.
#[derive(Debug, Clone, Copy, PartialEq, Eq, Structural)]
pub enum ResolutionArm {
    /// The row has no identity to resolve; only a changed neighbour is persisted.
    Skip,
    /// The LLDP chassis arm.
    Chassis,
    /// The CDP device arm.
    Cdp,
}

pub open spec fn arm_of(b: InterfaceBase) -> ResolutionArm {
    if chassis_arm_applies(b) {
        ResolutionArm::Chassis
    } else if cdp_arm_applies(b) {
        ResolutionArm::Cdp
    } else {
        ResolutionArm::Skip
    }
}

/// The arm a row takes: the chassis arm when it applies, else the CDP arm, else none.
pub fn resolution_arm(base: &InterfaceBase) -> (r: ResolutionArm)
    ensures
        r == arm_of(*base),
        (r == ResolutionArm::Skip) == !crate::interfaces::resolvable_identity(*base),
{
    if base.resolvable_chassis_id().is_some() {
        ResolutionArm::Chassis
    } else if base.resolvable_cdp_device_id().is_some() {
        ResolutionArm::Cdp
    } else {
        ResolutionArm::Skip
    }
}

/// The far-end host verdict for a row: a host an earlier pass already found is kept, so a
/// partial resolution never regresses; otherwise the verdict the adjacency build computed, and
/// `NoStrategy` when it computed none.
pub open spec fn host_verdict_spec(known: Option<Neighbor>, computed: Option<IdentityResolution>) -> IdentityResolution {
    match known {
        Some(Neighbor::Host(h)) => IdentityResolution::Resolved(h),
        _ => match computed {
            Some(v) => v,
            None => IdentityResolution::NoStrategy,
        },
    }
}

pub fn host_verdict(known: Option<Neighbor>, computed: Option<IdentityResolution>) -> (r:
    IdentityResolution)
    ensures
        r == host_verdict_spec(known, computed),
{
    match known {
        Some(Neighbor::Host(h)) => IdentityResolution::Resolved(h),
        _ => match computed {
            Some(v) => v,
            None => IdentityResolution::NoStrategy,
        },
    }
}

/// The description the last-resort tier looks up: only once the port id has failed to name a
/// port, and only a description worth trying as a name.
pub fn description_offer<'a>(by_id: IdentityResolution, desc: Option<&'a str>) -> (r: Option<&'a str>)
    ensures
        by_id is Resolved ==> r is None,
        !(by_id is Resolved) ==> match r {
            Some(d) => desc == Some(d) && desc_worth_spec(Some(d@)) == Some(d@),
            None => desc_worth_spec(crate::lldp::opt_str(desc)) is None,
        },
{
    match by_id {
        IdentityResolution::Resolved(_) => None,
        _ => desc_worth_matching(desc),
    }
}

/// What a warning about a row's far end names it by: the chassis identifier and the advertised
/// system name on the chassis arm, the CDP device id on the CDP arm, nothing otherwise.
pub open spec fn neighbour_identifier_spec(b: InterfaceBase, arm: ResolutionArm) -> (Seq<char>, Option<Seq<char>>) {
    match arm {
        ResolutionArm::Chassis => (
            match b.lldp_chassis_id {
                Some(c) => chassis_identifier_text(c@),
                None => Seq::empty(),
            },
            opt_text(b.lldp_sys_name),
        ),
        ResolutionArm::Cdp => (
            match b.cdp_device_id {
                Some(d) => d@,
                None => Seq::empty(),
            },
            None,
        ),
        ResolutionArm::Skip => (Seq::empty(), None),
    }
}

pub fn neighbour_identifier(base: &InterfaceBase, arm: ResolutionArm) -> (r: (String, Option<String>))
    ensures
        (r.0@, opt_text(r.1)) == neighbour_identifier_spec(*base, arm),
{
    match arm {
        ResolutionArm::Chassis => {
            let id = match &base.lldp_chassis_id {
                Some(c) => c.identifier(),
                None => String::new(),
            };
            (id, copy_text(&base.lldp_sys_name))
        },
        ResolutionArm::Cdp => {
            let id = match &base.cdp_device_id {
                Some(d) => d.clone(),
                None => String::new(),
            };
            (id, None)
        },
        ResolutionArm::Skip => (String::new(), None),
    }
}

/// The port verdict once the description tier has had its turn: a resolved port id stands; an
/// unresolved one is replaced only by a description match, and otherwise keeps its own verdict.
pub fn port_after_description(port: IdentityResolution, described: Option<u128>) -> (r:
    IdentityResolution)
    ensures
        r == (match port {
            IdentityResolution::Resolved(id) => IdentityResolution::Resolved(id),
            _ => match described {
                Some(id) => IdentityResolution::Resolved(id),
                None => port,
            },
        }),
{
    match port {
        IdentityResolution::Resolved(id) => IdentityResolution::Resolved(id),
        _ => match described {
            Some(id) => IdentityResolution::Resolved(id),
            None => port,
        },
    }
}

/// The port verdict once the reciprocal tier has had its turn: a pairing, when one exists,
/// replaces the verdict.
pub fn port_after_pairing(port: IdentityResolution, paired: Option<IdentityResolution>) -> (r:
    IdentityResolution)
    ensures
        r == (match paired {
            Some(p) => p,
            None => port,
        }),
{
    match paired {
        Some(p) => p,
        None => port,
    }
}

/// What a row's neighbour becomes: nothing new when the far-end device did not resolve (an
/// existing partial is left as it was), the port when it resolved, else the device.
pub open spec fn neighbor_from(host: IdentityResolution, port: IdentityResolution) -> Option<Neighbor> {
    match host {
        IdentityResolution::Resolved(h) => match port {
            IdentityResolution::Resolved(p) => Some(Neighbor::Interface(p)),
            _ => Some(Neighbor::Host(h)),
        },
        _ => None,
    }
}

pub fn resolved_neighbor(host: IdentityResolution, port: IdentityResolution) -> (r: Option<Neighbor>)
    ensures
        r == neighbor_from(host, port),
{
    match host {
        IdentityResolution::Resolved(h) => match port {
            IdentityResolution::Resolved(p) => Some(Neighbor::Interface(p)),
            _ => Some(Neighbor::Host(h)),
        },
        _ => None,
    }
}

/// The neighbour a row stores after a pass: the resolved one, or what it held when nothing new
/// resolved.
pub open spec fn settled(current: Option<Neighbor>, resolved: Option<Neighbor>) -> Option<Neighbor> {
    match resolved {
        Some(n) => Some(n),
        None => current,
    }
}

pub fn settle_neighbor(current: Option<Neighbor>, resolved: Option<Neighbor>) -> (r: (
    Option<Neighbor>,
    bool,
))
    ensures
        r.0 == settled(current, resolved),
        r.1 == (r.0 != current),
{
    let next = match resolved {
        Some(n) => Some(n),
        None => current,
    };
    let changed = match (next, current) {
        (Some(a), Some(b)) => !neighbors_equal(a, b),
        (None, None) => false,
        _ => true,
    };
    (next, changed)
}

fn neighbors_equal(a: Neighbor, b: Neighbor) -> (r: bool)
    ensures
        r == (a == b),
{
    match (a, b) {
        (Neighbor::Interface(x), Neighbor::Interface(y)) => x == y,
        (Neighbor::Host(x), Neighbor::Host(y)) => x == y,
        _ => false,
    }
}

// ---------------------------------------------------------------------------------------------
// The row's steps
// ---------------------------------------------------------------------------------------------

/// Why a verdict leaves its entity unplaced; `None` when it resolved.
pub open spec fn unresolved_reason(r: IdentityResolution) -> Option<UnresolvedReason> {
    match r {
        IdentityResolution::Resolved(_) => None,
        IdentityResolution::NoStrategy => Some(UnresolvedReason::NoStrategy),
        IdentityResolution::NotFound => Some(UnresolvedReason::NotFound),
        IdentityResolution::Ambiguous => Some(UnresolvedReason::Ambiguous),
    }
}

/// How a row's pass ends: the neighbour it holds afterwards, whether that differs from what it
/// held (so the row is written back), and what could not be placed, for the operator.
#[derive(Debug, Clone, Copy, PartialEq, Eq)]
pub struct RowSettlement {
    pub neighbor: Option<Neighbor>,
    pub changed: bool,
    /// Why the far-end device was not placed, when it was not.
    pub host_unresolved: Option<UnresolvedReason>,
    /// The far-end device, and why its port was not placed, when it was not.
    pub port_unresolved: Option<(u128, UnresolvedReason)>,
}

/// Where a row's pass stands: settled, or waiting for one lookup, whose answer goes to the step
/// named beside it.
#[derive(Debug, Clone, PartialEq, Eq)]
pub enum RowStep {
    /// The row is settled.
    Done(RowSettlement),
    /// Resolve the advertised LLDP port id among the ports of `host`; then [`after_port_id`].
    ResolvePortId { host: u128 },
    /// Find the port of `host` that the advertised description names; then
    /// [`after_described_port`].
    FindDescribedPort { host: u128, by_id: IdentityResolution, name: String },
    /// Find the port of `host` that the CDP port id names; then [`after_cdp_port`].
    FindCdpPort { host: u128, name: String },
    /// Ask the reciprocal tier whether `port` pairs on `host`; then [`after_pairing`].
    AskPairing { host: u128, port: IdentityResolution },
}

/// The step after the port id's verdict `by_id` on `host`: the description tier when the id did
/// not place the port and the advertised description is worth trying as a name, else the
/// reciprocal tier with that verdict.
pub open spec fn port_id_step(b: InterfaceBase, host: u128, by_id: IdentityResolution, r: RowStep) -> bool {
    if !(by_id is Resolved) && desc_worth_spec(opt_text(b.lldp_port_desc)) is Some {
        r matches RowStep::FindDescribedPort { host: h, by_id: v, name } && h == host && v == by_id
            && name@ == b.lldp_port_desc->0@
    } else {
        r == RowStep::AskPairing { host, port: by_id }
    }
}

/// The first step of a row's pass; see [`row_start`].
pub open spec fn start_step(
    b: InterfaceBase,
    current: Option<Neighbor>,
    computed: Option<IdentityResolution>,
    r: RowStep,
) -> bool {
    match arm_of(b) {
        ResolutionArm::Skip => r == RowStep::Done(
            RowSettlement { neighbor: current, changed: false, host_unresolved: None, port_unresolved: None },
        ),
        arm => match host_verdict_spec(current, computed) {
            IdentityResolution::Resolved(h) => if arm == ResolutionArm::Chassis {
                if b.lldp_port_id is Some {
                    r == RowStep::ResolvePortId { host: h }
                } else {
                    port_id_step(b, h, IdentityResolution::NoStrategy, r)
                }
            } else {
                r == match b.cdp_port_id {
                    Some(n) => RowStep::FindCdpPort { host: h, name: n },
                    None => RowStep::AskPairing { host: h, port: IdentityResolution::NoStrategy },
                }
            },
            unplaced => r == RowStep::Done(
                RowSettlement {
                    neighbor: current,
                    changed: false,
                    host_unresolved: unresolved_reason(unplaced),
                    port_unresolved: None,
                },
            ),
        },
    }
}

/// The first step of a row's pass, given what it holds (`current`) and the far-end verdict the
/// adjacency build computed: a row with no identity, or whose far-end device stays unplaced, is
/// settled as it is; otherwise the chassis arm asks for its port id's verdict (or goes straight
/// to the description tier without one), and the CDP arm for the port its CDP port id names (or
/// straight to the reciprocal tier without one).
pub fn row_start(base: &InterfaceBase, current: Option<Neighbor>, computed: Option<IdentityResolution>) -> (r: RowStep)
    ensures
        start_step(*base, current, computed, r),
{
    let arm = resolution_arm(base);
    if arm == ResolutionArm::Skip {
        return RowStep::Done(
            RowSettlement { neighbor: current, changed: false, host_unresolved: None, port_unresolved: None },
        );
    }
    let host = host_verdict(current, computed);
    match host {
        IdentityResolution::Resolved(h) => {
            if arm == ResolutionArm::Chassis {
                match &base.lldp_port_id {
                    Some(_) => RowStep::ResolvePortId { host: h },
                    None => after_port_id(base, h, IdentityResolution::NoStrategy),
                }
            } else {
                match &base.cdp_port_id {
                    Some(n) => RowStep::FindCdpPort { host: h, name: n.clone() },
                    None => RowStep::AskPairing { host: h, port: IdentityResolution::NoStrategy },
                }
            }
        },
        _ => RowStep::Done(
            RowSettlement {
                neighbor: current,
                changed: false,
                host_unresolved: UnresolvedReason::from_resolution(host),
                port_unresolved: None,
            },
        ),
    }
}

/// The step after the port id answered `by_id` for the ports of `host`.
pub fn after_port_id(base: &InterfaceBase, host: u128, by_id: IdentityResolution) -> (r: RowStep)
    ensures
        port_id_step(*base, host, by_id, r),
{
    let offered = match &base.lldp_port_desc {
        Some(d) => description_offer(by_id, Some(d.as_str())),
        None => description_offer(by_id, None),
    };
    match offered {
        Some(name) => RowStep::FindDescribedPort { host, by_id, name: name.to_owned() },
        None => RowStep::AskPairing { host, port: by_id },
    }
}

/// The step after the description tier found `described` among the ports of `host`: the
/// reciprocal tier, with the port id's verdict unless the description placed the port.
pub fn after_described_port(host: u128, by_id: IdentityResolution, described: Option<u128>) -> (r: RowStep)
    ensures
        r == (RowStep::AskPairing {
            host,
            port: match by_id {
                IdentityResolution::Resolved(id) => IdentityResolution::Resolved(id),
                _ => match described {
                    Some(id) => IdentityResolution::Resolved(id),
                    None => by_id,
                },
            },
        }),
{
    RowStep::AskPairing { host, port: port_after_description(by_id, described) }
}

/// The step after the CDP port id named `found` among the ports of `host`: the reciprocal tier,
/// with the port placed, or not found.
pub fn after_cdp_port(host: u128, found: Option<u128>) -> (r: RowStep)
    ensures
        r == (RowStep::AskPairing {
            host,
            port: match found {
                Some(id) => IdentityResolution::Resolved(id),
                None => IdentityResolution::NotFound,
            },
        }),
{
    RowStep::AskPairing { host, port: IdentityResolution::found(found) }
}

/// How a row holding `current` settles once the reciprocal tier answered `paired` for `port` on
/// the far-end device `host`: a pairing replaces the port verdict; the row then holds the port
/// when it is placed, else the device; and a port left unplaced is reported with its reason.
pub fn after_pairing(
    current: Option<Neighbor>,
    host: u128,
    port: IdentityResolution,
    paired: Option<IdentityResolution>,
) -> (r: RowSettlement)
    ensures
        ({
            let p = match paired {
                Some(q) => q,
                None => port,
            };
            &&& r.neighbor == settled(current, neighbor_from(IdentityResolution::Resolved(host), p))
            &&& r.changed == (r.neighbor != current)
            &&& r.host_unresolved is None
            &&& r.port_unresolved == match unresolved_reason(p) {
                Some(why) => Some((host, why)),
                None => None,
            }
        }),
{
    let p = port_after_pairing(port, paired);
    let (neighbor, changed) = settle_neighbor(
        current,
        resolved_neighbor(IdentityResolution::Resolved(host), p),
    );
    let port_unresolved = match UnresolvedReason::from_resolution(p) {
        Some(why) => Some((host, why)),
        None => None,
    };
    RowSettlement { neighbor, changed, host_unresolved: None, port_unresolved }
}

/// A row whose far-end device resolved never loses it: whatever the port tiers answered, the
/// stored neighbour names that device or one of its ports.
pub proof fn lemma_a_resolved_host_is_never_lost(h: u128, port: IdentityResolution)
    ensures
        neighbor_from(IdentityResolution::Resolved(h), port) is Some,
        port is Resolved ==> neighbor_from(IdentityResolution::Resolved(h), port) == Some(
            Neighbor::Interface(port->Resolved_0),
        ),
        !(port is Resolved) ==> neighbor_from(IdentityResolution::Resolved(h), port) == Some(
            Neighbor::Host(h),
        ),
{
}

/// A partial resolution from an earlier pass never regresses: with the far-end device already
/// stored, the row ends holding that device or one of its ports whatever the lookups computed
/// now; and a pass whose device lookup resolves nothing leaves the stored neighbour as it was.
pub proof fn lemma_a_partial_never_regresses(
    h: u128,
    computed: Option<IdentityResolution>,
    port: IdentityResolution,
    current: Option<Neighbor>,
    unresolved: IdentityResolution,
)
    requires
        !(unresolved is Resolved),
    ensures
        ({
            let n = settled(
                Some(Neighbor::Host(h)),
                neighbor_from(host_verdict_spec(Some(Neighbor::Host(h)), computed), port),
            );
            n == Some(Neighbor::Host(h)) || n matches Some(Neighbor::Interface(_))
        }),
        settled(current, neighbor_from(unresolved, port)) == current,
{
}

// ---------------------------------------------------------------------------------------------
// The FDB pass
// ---------------------------------------------------------------------------------------------

/// The one address a single-address FDB port learned.
pub fn single_fdb_address(base: &InterfaceBase) -> (r: Option<String>)
    ensures
        r is Some == single_fdb_mac(*base),
        r matches Some(m) ==> m@ == base.fdb_macs->0@[0]@,
{
    match &base.fdb_macs {
        Some(macs) => if macs.len() == 1 {
            Some(macs[0].clone())
        } else {
            None
        },
        None => None,
    }
}

/// What an FDB port's neighbour becomes: nothing unless the MAC names exactly one device; the
/// port when it also names exactly one of that device's ports, else the device.
pub fn fdb_neighbor(host: IdentityResolution, port: IdentityResolution) -> (r: Option<Neighbor>)
    ensures
        r == neighbor_from(host, port),
{
    resolved_neighbor(host, port)
}

/// How many of a pass's rows were placed: those whose outcome is a neighbour.
pub open spec fn placed_count(outcomes: Seq<Option<Neighbor>>) -> nat
    decreases outcomes.len(),
{
    if outcomes.len() == 0 {
        0
    } else {
        placed_count(outcomes.drop_last()) + if outcomes.last() is Some {
            1nat
        } else {
            0nat
        }
    }
}

proof fn lemma_placed_count_bounded(outcomes: Seq<Option<Neighbor>>)
    ensures
        placed_count(outcomes) <= outcomes.len(),
    decreases outcomes.len(),
{
    if outcomes.len() > 0 {
        lemma_placed_count_bounded(outcomes.drop_last());
    }
}

/// The number an FDB pass reports: how many of its rows it placed, each row's outcome being
/// what [`fdb_neighbor`] made of it (nothing for a row it left unresolved).
pub fn placed_rows(outcomes: &[Option<Neighbor>]) -> (r: u32)
    requires
        outcomes@.len() <= u32::MAX,
    ensures
        r == placed_count(outcomes@),
{
    let mut count: u32 = 0;
    let mut i: usize = 0;
    while i < outcomes.len()
        invariant
            i <= outcomes@.len(),
            outcomes@.len() <= u32::MAX,
            count == placed_count(outcomes@.subrange(0, i as int)),
        decreases outcomes.len() - i,
    {
        proof {
            let next = outcomes@.subrange(0, i + 1);
            assert(next.drop_last() =~= outcomes@.subrange(0, i as int));
            lemma_placed_count_bounded(next);
        }
        if outcomes[i].is_some() {
            count = count + 1;
        }
        i = i + 1;
    }
    assert(outcomes@.subrange(0, outcomes@.len() as int) =~= outcomes@);
    count
}

} // verus!
