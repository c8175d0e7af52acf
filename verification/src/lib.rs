//! Network discovery: LLDP identifiers, interface identity and host naming.

pub mod clock;
pub mod consolidate;
pub mod controller;
pub mod gnmi;
pub mod hosts;
pub mod interfaces;
pub mod lldp;
pub mod net;
pub mod text;
pub mod topology;
