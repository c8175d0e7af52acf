//! gNMI (OpenConfig) collection: the paths read from a device, the leaves its notifications
//! carry, how those leaves fold into per-interface and per-neighbour state, and the interface
//! rows they amount to.

use vstd::prelude::*;
use crate::text::{
    str_eq, chars_of, string_of, parse_i64, parse_u64, std_parse_int, extend_str, extend_chars, i64_text,
    u64_text, signed_decimal_text, decimal_text,
};
use crate::interfaces::{IfAdminStatus, IfOperStatus};
use crate::lldp::{
    LldpChassisId, LldpPortId, ChassisView, PortView, canonical_mac, canonical_mac_spec,
    chassis_from_identifier_spec, port_from_identifier_spec, chassis_opt, port_opt, opt_str,
};
use crate::net::{IpAddress, parse_ip, parse_ip_spec};
use crate::interfaces::{Interface, InterfaceBase, InterfaceDataComplete};
use crate::clock::new_uuid;
use crate::lldp::{mac_from_text, mac_text_value, format_mac, opt_text, chassis_identifier_text};
use crate::text::{HexStyle, hex_join};

verus! {

broadcast use vstd::string::group_string_axioms;

// ---------------------------------------------------------------------------------------------
// The IANAifType registry
// ---------------------------------------------------------------------------------------------

/// The IANAifType-MIB registry: each enumerator label with its ifType number.
pub open spec fn iana_if_types() -> Seq<(&'static str, i32)> {
    seq![
        ("other", 1),
        ("regular1822", 2),
        ("hdh1822", 3),
        ("ddnX25", 4),
        ("rfc877x25", 5),
        ("ethernetCsmacd", 6),
        ("iso88023Csmacd", 7),
        ("iso88024TokenBus", 8),
        ("iso88025TokenRing", 9),
        ("iso88026Man", 10),
        ("starLan", 11),
        ("proteon10Mbit", 12),
        ("proteon80Mbit", 13),
        ("hyperchannel", 14),
        ("fddi", 15),
        ("lapb", 16),
        ("sdlc", 17),
        ("ds1", 18),
        ("e1", 19),
        ("basicISDN", 20),
        ("primaryISDN", 21),
        ("propPointToPointSerial", 22),
        ("ppp", 23),
        ("softwareLoopback", 24),
        ("eon", 25),
        ("ethernet3Mbit", 26),
        ("nsip", 27),
        ("slip", 28),
        ("ultra", 29),
        ("ds3", 30),
        ("sip", 31),
        ("frameRelay", 32),
        ("rs232", 33),
        ("para", 34),
        ("arcnet", 35),
        ("arcnetPlus", 36),
        ("atm", 37),
        ("miox25", 38),
        ("sonet", 39),
        ("x25ple", 40),
        ("iso88022llc", 41),
        ("localTalk", 42),
        ("smdsDxi", 43),
        ("frameRelayService", 44),
        ("v35", 45),
        ("hssi", 46),
        ("hippi", 47),
        ("modem", 48),
        ("aal5", 49),
        ("sonetPath", 50),
        ("sonetVT", 51),
        ("smdsIcip", 52),
        ("propVirtual", 53),
        ("propMultiplexor", 54),
        ("ieee80212", 55),
        ("fibreChannel", 56),
        ("hippiInterface", 57),
        ("frameRelayInterconnect", 58),
        ("aflane8023", 59),
        ("aflane8025", 60),
        ("cctEmul", 61),
        ("fastEther", 62),
        ("isdn", 63),
        ("v11", 64),
        ("v36", 65),
        ("g703at64k", 66),
        ("g703at2mb", 67),
        ("qllc", 68),
        ("fastEtherFX", 69),
        ("channel", 70),
        ("ieee80211", 71),
        ("ibm370parChan", 72),
        ("escon", 73),
        ("dlsw", 74),
        ("isdns", 75),
        ("isdnu", 76),
        ("lapd", 77),
        ("ipSwitch", 78),
        ("rsrb", 79),
        ("atmLogical", 80),
        ("ds0", 81),
        ("ds0Bundle", 82),
        ("bsc", 83),
        ("async", 84),
        ("cnr", 85),
        ("iso88025Dtr", 86),
        ("eplrs", 87),
        ("arap", 88),
        ("propCnls", 89),
        ("hostPad", 90),
        ("termPad", 91),
        ("frameRelayMPI", 92),
        ("x213", 93),
        ("adsl", 94),
        ("radsl", 95),
        ("sdsl", 96),
        ("vdsl", 97),
        ("iso88025CRFPInt", 98),
        ("myrinet", 99),
        ("voiceEM", 100),
        ("voiceFXO", 101),
        ("voiceFXS", 102),
        ("voiceEncap", 103),
        ("voiceOverIp", 104),
        ("atmDxi", 105),
        ("atmFuni", 106),
        ("atmIma", 107),
        ("pppMultilinkBundle", 108),
        ("ipOverCdlc", 109),
        ("ipOverClaw", 110),
        ("stackToStack", 111),
        ("virtualIpAddress", 112),
        ("mpc", 113),
        ("ipOverAtm", 114),
        ("iso88025Fiber", 115),
        ("tdlc", 116),
        ("gigabitEthernet", 117),
        ("hdlc", 118),
        ("lapf", 119),
        ("v37", 120),
        ("x25mlp", 121),
        ("x25huntGroup", 122),
        ("transpHdlc", 123),
        ("interleave", 124),
        ("fast", 125),
        ("ip", 126),
        ("docsCableMaclayer", 127),
        ("docsCableDownstream", 128),
        ("docsCableUpstream", 129),
        ("a12MppSwitch", 130),
        ("tunnel", 131),
        ("coffee", 132),
        ("ces", 133),
        ("atmSubInterface", 134),
        ("l2vlan", 135),
        ("l3ipvlan", 136),
        ("l3ipxvlan", 137),
        ("digitalPowerline", 138),
        ("mediaMailOverIp", 139),
        ("dtm", 140),
        ("dcn", 141),
        ("ipForward", 142),
        ("msdsl", 143),
        ("ieee1394", 144),
        ("if-gsn", 145),
        ("dvbRccMacLayer", 146),
        ("dvbRccDownstream", 147),
        ("dvbRccUpstream", 148),
        ("atmVirtual", 149),
        ("mplsTunnel", 150),
        ("srp", 151),
        ("voiceOverAtm", 152),
        ("voiceOverFrameRelay", 153),
        ("idsl", 154),
        ("compositeLink", 155),
        ("ss7SigLink", 156),
        ("propWirelessP2P", 157),
        ("frForward", 158),
        ("rfc1483", 159),
        ("usb", 160),
        ("ieee8023adLag", 161),
        ("bgppolicyaccounting", 162),
        ("frf16MfrBundle", 163),
        ("h323Gatekeeper", 164),
        ("h323Proxy", 165),
        ("mpls", 166),
        ("mfSigLink", 167),
        ("hdsl2", 168),
        ("shdsl", 169),
        ("ds1FDL", 170),
        ("pos", 171),
        ("dvbAsiIn", 172),
        ("dvbAsiOut", 173),
        ("plc", 174),
        ("nfas", 175),
        ("tr008", 176),
        ("gr303RDT", 177),
        ("gr303IDT", 178),
        ("isup", 179),
        ("propDocsWirelessMaclayer", 180),
        ("propDocsWirelessDownstream", 181),
        ("propDocsWirelessUpstream", 182),
        ("hiperlan2", 183),
        ("propBWAp2Mp", 184),
        ("sonetOverheadChannel", 185),
        ("digitalWrapperOverheadChannel", 186),
        ("aal2", 187),
        ("radioMAC", 188),
        ("atmRadio", 189),
        ("imt", 190),
        ("mvl", 191),
        ("reachDSL", 192),
        ("frDlciEndPt", 193),
        ("atmVciEndPt", 194),
        ("opticalChannel", 195),
        ("opticalTransport", 196),
        ("propAtm", 197),
        ("voiceOverCable", 198),
        ("infiniband", 199),
        ("teLink", 200),
        ("q2931", 201),
        ("virtualTg", 202),
        ("sipTg", 203),
        ("sipSig", 204),
        ("docsCableUpstreamChannel", 205),
        ("econet", 206),
        ("pon155", 207),
        ("pon622", 208),
        ("bridge", 209),
        ("linegroup", 210),
        ("voiceEMFGD", 211),
        ("voiceFGDEANA", 212),
        ("voiceDID", 213),
        ("mpegTransport", 214),
        ("sixToFour", 215),
        ("gtp", 216),
        ("pdnEtherLoop1", 217),
        ("pdnEtherLoop2", 218),
        ("opticalChannelGroup", 219),
        ("homepna", 220),
        ("gfp", 221),
        ("ciscoISLvlan", 222),
        ("actelisMetaLOOP", 223),
        ("fcipLink", 224),
        ("rpr", 225),
        ("qam", 226),
        ("lmp", 227),
        ("cblVectaStar", 228),
        ("docsCableMCmtsDownstream", 229),
        ("adsl2", 230),
        ("macSecControlledIF", 231),
        ("macSecUncontrolledIF", 232),
        ("aviciOpticalEther", 233),
        ("atmbond", 234),
        ("voiceFGDOS", 235),
        ("mocaVersion1", 236),
        ("ieee80216WMAN", 237),
        ("adsl2plus", 238),
        ("dvbRcsMacLayer", 239),
        ("dvbTdm", 240),
        ("dvbRcsTdma", 241),
        ("x86Laps", 242),
        ("wwanPP", 243),
        ("wwanPP2", 244),
        ("voiceEBS", 245),
        ("ifPwType", 246),
        ("ilan", 247),
        ("pip", 248),
        ("aluELP", 249),
        ("gpon", 250),
        ("vdsl2", 251),
        ("capwapDot11Profile", 252),
        ("capwapDot11Bss", 253),
        ("capwapWtpVirtualRadio", 254),
        ("bits", 255),
        ("docsCableUpstreamRfPort", 256),
        ("cableDownstreamRfPort", 257),
        ("vmwareVirtualNic", 258),
        ("ieee802154", 259),
        ("otnOdu", 260),
        ("otnOtu", 261),
        ("ifVfiType", 262),
        ("g9981", 263),
        ("g9982", 264),
        ("g9983", 265),
        ("aluEpon", 266),
        ("aluEponOnu", 267),
        ("aluEponPhysicalUni", 268),
        ("aluEponLogicalLink", 269),
        ("aluGponOnu", 270),
        ("aluGponPhysicalUni", 271),
        ("vmwareNicTeam", 272),
        ("docsOfdmDownstream", 277),
        ("docsOfdmaUpstream", 278),
        ("gfast", 279),
        ("sdci", 280),
        ("xboxWireless", 281),
        ("fastdsl", 282),
        ("docsCableScte55d1FwdOob", 283),
        ("docsCableScte55d1RetOob", 284),
        ("docsCableScte55d2DsOob", 285),
        ("docsCableScte55d2UsOob", 286),
        ("docsCableNdf", 287),
        ("docsCableNdr", 288),
        ("ptm", 289),
        ("ghn", 290),
        ("otnOtsi", 291),
        ("otnOtuc", 292),
        ("otnOduc", 293),
        ("otnOtsig", 294),
        ("microwaveCarrierTermination", 295),
        ("microwaveRadioLinkTerminal", 296),
        ("ieee8021axDrni", 297),
        ("ax25", 298),
        ("ieee19061nanocom", 299),
        ("cpri", 300),
        ("omni", 301),
        ("roe", 302),
        ("p2pOverLan", 303)
    ]
}

fn iana_if_type_table() -> (r: Vec<(&'static str, i32)>)
    ensures
        r@ == iana_if_types(),
{
    let v = vec![
        ("other", 1i32),
        ("regular1822", 2i32),
        ("hdh1822", 3i32),
        ("ddnX25", 4i32),
        ("rfc877x25", 5i32),
        ("ethernetCsmacd", 6i32),
        ("iso88023Csmacd", 7i32),
        ("iso88024TokenBus", 8i32),
        ("iso88025TokenRing", 9i32),
        ("iso88026Man", 10i32),
        ("starLan", 11i32),
        ("proteon10Mbit", 12i32),
        ("proteon80Mbit", 13i32),
        ("hyperchannel", 14i32),
        ("fddi", 15i32),
        ("lapb", 16i32),
        ("sdlc", 17i32),
        ("ds1", 18i32),
        ("e1", 19i32),
        ("basicISDN", 20i32),
        ("primaryISDN", 21i32),
        ("propPointToPointSerial", 22i32),
        ("ppp", 23i32),
        ("softwareLoopback", 24i32),
        ("eon", 25i32),
        ("ethernet3Mbit", 26i32),
        ("nsip", 27i32),
        ("slip", 28i32),
        ("ultra", 29i32),
        ("ds3", 30i32),
        ("sip", 31i32),
        ("frameRelay", 32i32),
        ("rs232", 33i32),
        ("para", 34i32),
        ("arcnet", 35i32),
        ("arcnetPlus", 36i32),
        ("atm", 37i32),
        ("miox25", 38i32),
        ("sonet", 39i32),
        ("x25ple", 40i32),
        ("iso88022llc", 41i32),
        ("localTalk", 42i32),
        ("smdsDxi", 43i32),
        ("frameRelayService", 44i32),
        ("v35", 45i32),
        ("hssi", 46i32),
        ("hippi", 47i32),
        ("modem", 48i32),
        ("aal5", 49i32),
        ("sonetPath", 50i32),
        ("sonetVT", 51i32),
        ("smdsIcip", 52i32),
        ("propVirtual", 53i32),
        ("propMultiplexor", 54i32),
        ("ieee80212", 55i32),
        ("fibreChannel", 56i32),
        ("hippiInterface", 57i32),
        ("frameRelayInterconnect", 58i32),
        ("aflane8023", 59i32),
        ("aflane8025", 60i32),
        ("cctEmul", 61i32),
        ("fastEther", 62i32),
        ("isdn", 63i32),
        ("v11", 64i32),
        ("v36", 65i32),
        ("g703at64k", 66i32),
        ("g703at2mb", 67i32),
        ("qllc", 68i32),
        ("fastEtherFX", 69i32),
        ("channel", 70i32),
        ("ieee80211", 71i32),
        ("ibm370parChan", 72i32),
        ("escon", 73i32),
        ("dlsw", 74i32),
        ("isdns", 75i32),
        ("isdnu", 76i32),
        ("lapd", 77i32),
        ("ipSwitch", 78i32),
        ("rsrb", 79i32),
        ("atmLogical", 80i32),
        ("ds0", 81i32),
        ("ds0Bundle", 82i32),
        ("bsc", 83i32),
        ("async", 84i32),
        ("cnr", 85i32),
        ("iso88025Dtr", 86i32),
        ("eplrs", 87i32),
        ("arap", 88i32),
        ("propCnls", 89i32),
        ("hostPad", 90i32),
        ("termPad", 91i32),
        ("frameRelayMPI", 92i32),
        ("x213", 93i32),
        ("adsl", 94i32),
        ("radsl", 95i32),
        ("sdsl", 96i32),
        ("vdsl", 97i32),
        ("iso88025CRFPInt", 98i32),
        ("myrinet", 99i32),
        ("voiceEM", 100i32),
        ("voiceFXO", 101i32),
        ("voiceFXS", 102i32),
        ("voiceEncap", 103i32),
        ("voiceOverIp", 104i32),
        ("atmDxi", 105i32),
        ("atmFuni", 106i32),
        ("atmIma", 107i32),
        ("pppMultilinkBundle", 108i32),
        ("ipOverCdlc", 109i32),
        ("ipOverClaw", 110i32),
        ("stackToStack", 111i32),
        ("virtualIpAddress", 112i32),
        ("mpc", 113i32),
        ("ipOverAtm", 114i32),
        ("iso88025Fiber", 115i32),
        ("tdlc", 116i32),
        ("gigabitEthernet", 117i32),
        ("hdlc", 118i32),
        ("lapf", 119i32),
        ("v37", 120i32),
        ("x25mlp", 121i32),
        ("x25huntGroup", 122i32),
        ("transpHdlc", 123i32),
        ("interleave", 124i32),
        ("fast", 125i32),
        ("ip", 126i32),
        ("docsCableMaclayer", 127i32),
        ("docsCableDownstream", 128i32),
        ("docsCableUpstream", 129i32),
        ("a12MppSwitch", 130i32),
        ("tunnel", 131i32),
        ("coffee", 132i32),
        ("ces", 133i32),
        ("atmSubInterface", 134i32),
        ("l2vlan", 135i32),
        ("l3ipvlan", 136i32),
        ("l3ipxvlan", 137i32),
        ("digitalPowerline", 138i32),
        ("mediaMailOverIp", 139i32),
        ("dtm", 140i32),
        ("dcn", 141i32),
        ("ipForward", 142i32),
        ("msdsl", 143i32),
        ("ieee1394", 144i32),
        ("if-gsn", 145i32),
        ("dvbRccMacLayer", 146i32),
        ("dvbRccDownstream", 147i32),
        ("dvbRccUpstream", 148i32),
        ("atmVirtual", 149i32),
        ("mplsTunnel", 150i32),
        ("srp", 151i32),
        ("voiceOverAtm", 152i32),
        ("voiceOverFrameRelay", 153i32),
        ("idsl", 154i32),
        ("compositeLink", 155i32),
        ("ss7SigLink", 156i32),
        ("propWirelessP2P", 157i32),
        ("frForward", 158i32),
        ("rfc1483", 159i32),
        ("usb", 160i32),
        ("ieee8023adLag", 161i32),
        ("bgppolicyaccounting", 162i32),
        ("frf16MfrBundle", 163i32),
        ("h323Gatekeeper", 164i32),
        ("h323Proxy", 165i32),
        ("mpls", 166i32),
        ("mfSigLink", 167i32),
        ("hdsl2", 168i32),
        ("shdsl", 169i32),
        ("ds1FDL", 170i32),
        ("pos", 171i32),
        ("dvbAsiIn", 172i32),
        ("dvbAsiOut", 173i32),
        ("plc", 174i32),
        ("nfas", 175i32),
        ("tr008", 176i32),
        ("gr303RDT", 177i32),
        ("gr303IDT", 178i32),
        ("isup", 179i32),
        ("propDocsWirelessMaclayer", 180i32),
        ("propDocsWirelessDownstream", 181i32),
        ("propDocsWirelessUpstream", 182i32),
        ("hiperlan2", 183i32),
        ("propBWAp2Mp", 184i32),
        ("sonetOverheadChannel", 185i32),
        ("digitalWrapperOverheadChannel", 186i32),
        ("aal2", 187i32),
        ("radioMAC", 188i32),
        ("atmRadio", 189i32),
        ("imt", 190i32),
        ("mvl", 191i32),
        ("reachDSL", 192i32),
        ("frDlciEndPt", 193i32),
        ("atmVciEndPt", 194i32),
        ("opticalChannel", 195i32),
        ("opticalTransport", 196i32),
        ("propAtm", 197i32),
        ("voiceOverCable", 198i32),
        ("infiniband", 199i32),
        ("teLink", 200i32),
        ("q2931", 201i32),
        ("virtualTg", 202i32),
        ("sipTg", 203i32),
        ("sipSig", 204i32),
        ("docsCableUpstreamChannel", 205i32),
        ("econet", 206i32),
        ("pon155", 207i32),
        ("pon622", 208i32),
        ("bridge", 209i32),
        ("linegroup", 210i32),
        ("voiceEMFGD", 211i32),
        ("voiceFGDEANA", 212i32),
        ("voiceDID", 213i32),
        ("mpegTransport", 214i32),
        ("sixToFour", 215i32),
        ("gtp", 216i32),
        ("pdnEtherLoop1", 217i32),
        ("pdnEtherLoop2", 218i32),
        ("opticalChannelGroup", 219i32),
        ("homepna", 220i32),
        ("gfp", 221i32),
        ("ciscoISLvlan", 222i32),
        ("actelisMetaLOOP", 223i32),
        ("fcipLink", 224i32),
        ("rpr", 225i32),
        ("qam", 226i32),
        ("lmp", 227i32),
        ("cblVectaStar", 228i32),
        ("docsCableMCmtsDownstream", 229i32),
        ("adsl2", 230i32),
        ("macSecControlledIF", 231i32),
        ("macSecUncontrolledIF", 232i32),
        ("aviciOpticalEther", 233i32),
        ("atmbond", 234i32),
        ("voiceFGDOS", 235i32),
        ("mocaVersion1", 236i32),
        ("ieee80216WMAN", 237i32),
        ("adsl2plus", 238i32),
        ("dvbRcsMacLayer", 239i32),
        ("dvbTdm", 240i32),
        ("dvbRcsTdma", 241i32),
        ("x86Laps", 242i32),
        ("wwanPP", 243i32),
        ("wwanPP2", 244i32),
        ("voiceEBS", 245i32),
        ("ifPwType", 246i32),
        ("ilan", 247i32),
        ("pip", 248i32),
        ("aluELP", 249i32),
        ("gpon", 250i32),
        ("vdsl2", 251i32),
        ("capwapDot11Profile", 252i32),
        ("capwapDot11Bss", 253i32),
        ("capwapWtpVirtualRadio", 254i32),
        ("bits", 255i32),
        ("docsCableUpstreamRfPort", 256i32),
        ("cableDownstreamRfPort", 257i32),
        ("vmwareVirtualNic", 258i32),
        ("ieee802154", 259i32),
        ("otnOdu", 260i32),
        ("otnOtu", 261i32),
        ("ifVfiType", 262i32),
        ("g9981", 263i32),
        ("g9982", 264i32),
        ("g9983", 265i32),
        ("aluEpon", 266i32),
        ("aluEponOnu", 267i32),
        ("aluEponPhysicalUni", 268i32),
        ("aluEponLogicalLink", 269i32),
        ("aluGponOnu", 270i32),
        ("aluGponPhysicalUni", 271i32),
        ("vmwareNicTeam", 272i32),
        ("docsOfdmDownstream", 277i32),
        ("docsOfdmaUpstream", 278i32),
        ("gfast", 279i32),
        ("sdci", 280i32),
        ("xboxWireless", 281i32),
        ("fastdsl", 282i32),
        ("docsCableScte55d1FwdOob", 283i32),
        ("docsCableScte55d1RetOob", 284i32),
        ("docsCableScte55d2DsOob", 285i32),
        ("docsCableScte55d2UsOob", 286i32),
        ("docsCableNdf", 287i32),
        ("docsCableNdr", 288i32),
        ("ptm", 289i32),
        ("ghn", 290i32),
        ("otnOtsi", 291i32),
        ("otnOtuc", 292i32),
        ("otnOduc", 293i32),
        ("otnOtsig", 294i32),
        ("microwaveCarrierTermination", 295i32),
        ("microwaveRadioLinkTerminal", 296i32),
        ("ieee8021axDrni", 297i32),
        ("ax25", 298i32),
        ("ieee19061nanocom", 299i32),
        ("cpri", 300i32),
        ("omni", 301i32),
        ("roe", 302i32),
        ("p2pOverLan", 303i32)
    ];
    assert(v@ =~= iana_if_types());
    v
}

/// The number the registry gives `label`, searching from entry `i`.
pub open spec fn if_type_number_from(label: Seq<char>, i: int) -> Option<i32>
    decreases iana_if_types().len() - i,
{
    if i < 0 || i >= iana_if_types().len() {
        None
    } else if iana_if_types()[i].0@ == label {
        Some(iana_if_types()[i].1)
    } else {
        if_type_number_from(label, i + 1)
    }
}

/// The ifType number for an IANAifType label, if the registry has it.
pub fn get_if_type_number(label: &str) -> (r: Option<i32>)
    ensures
        r == if_type_number_from(label@, 0),
{
    let table = iana_if_type_table();
    let mut i: usize = 0;
    while i < table.len()
        invariant
            i <= table@.len(),
            table@ == iana_if_types(),
            if_type_number_from(label@, 0) == if_type_number_from(label@, i as int),
        decreases table.len() - i,
    {
        let (name, number) = table[i];
        if str_eq(name, label) {
            return Some(number);
        }
        i = i + 1;
    }
    None
}

// ---------------------------------------------------------------------------------------------
// Names and identities
// ---------------------------------------------------------------------------------------------

/// A name with its YANG module prefix removed: what follows the last `:`.
pub open spec fn unqualified_spec(s: Seq<char>) -> Seq<char>
    decreases s.len(),
{
    if s.len() == 0 {
        s
    } else if s.last() == ':' {
        Seq::empty()
    } else {
        unqualified_spec(s.drop_last()).push(s.last())
    }
}

/// Strip the YANG module prefix JSON-IETF puts on names: `openconfig-interfaces:ifindex`.
pub fn unqualified(name: &str) -> (r: String)
    ensures
        r@ == unqualified_spec(name@),
{
    let v = chars_of(name);
    let mut out: Vec<char> = Vec::new();
    let mut i: usize = 0;
    while i < v.len()
        invariant
            i <= v@.len(),
            v@ == name@,
            out@ == unqualified_spec(v@.subrange(0, i as int)),
        decreases v.len() - i,
    {
        assert(v@.subrange(0, i + 1).drop_last() =~= v@.subrange(0, i as int));
        if v[i] == ':' {
            out = Vec::new();
        } else {
            out.push(v[i]);
        }
        i = i + 1;
    }
    assert(v@.subrange(0, v@.len() as int) =~= v@);
    string_of(out.as_slice())
}

/// The ifType number for an `iana-if-type` identity: its label looked up in the registry,
/// whatever the module prefix; `other` (1) for anything the registry lacks.
pub open spec fn if_type_of_identity(identity: Seq<char>) -> i32 {
    match if_type_number_from(unqualified_spec(identity), 0) {
        Some(n) => n,
        None => 1,
    }
}

pub fn if_type_from_identity(identity: &str) -> (r: i32)
    ensures
        r == if_type_of_identity(identity@),
{
    let label = unqualified(identity);
    match get_if_type_number(label.as_str()) {
        Some(n) => n,
        None => 1,
    }
}

/// `s` with trailing ASCII letters removed.
pub open spec fn trim_letters_end(s: Seq<char>) -> Seq<char>
    decreases s.len(),
{
    if s.len() > 0 && (('a' <= s.last() && s.last() <= 'z') || ('A' <= s.last() && s.last() <= 'Z')) {
        trim_letters_end(s.drop_last())
    } else {
        s
    }
}

proof fn lemma_trim_letters_prefix(s: Seq<char>)
    ensures
        trim_letters_end(s).len() <= s.len(),
        trim_letters_end(s) == s.subrange(0, trim_letters_end(s).len() as int),
    decreases s.len(),
{
    if s.len() > 0 && (('a' <= s.last() && s.last() <= 'z') || ('A' <= s.last() && s.last() <= 'Z')) {
        lemma_trim_letters_prefix(s.drop_last());
        assert(s.drop_last().subrange(0, trim_letters_end(s).len() as int) =~= s.subrange(
            0,
            trim_letters_end(s).len() as int,
        ));
    } else {
        assert(s.subrange(0, s.len() as int) =~= s);
    }
}

/// The bits per second of a unit suffix.
pub open spec fn speed_unit(suffix: Seq<char>) -> Option<int> {
    if suffix == "MB"@ {
        Some(1_000_000)
    } else if suffix == "GB"@ {
        Some(1_000_000_000)
    } else if suffix == "TB"@ {
        Some(1_000_000_000_000)
    } else {
        None
    }
}

/// An `ETHERNET_SPEED` identity (`SPEED_10GB`, `SPEED_2500MB`) in bits per second: the number
/// before the unit times the unit. `SPEED_UNKNOWN`, and anything unrecognised or too large for
/// an `i64`, is no speed.
pub open spec fn speed_of_identity(identity: Seq<char>) -> Option<i64> {
    let u = unqualified_spec(identity);
    if u.len() >= 6 && u.subrange(0, 6) == "SPEED_"@ {
        let rest = u.subrange(6, u.len() as int);
        let digits = trim_letters_end(rest);
        let suffix = rest.subrange(digits.len() as int, rest.len() as int);
        match std_parse_int(digits, true, i64::MIN as int, i64::MAX as int) {
            Some(n) => match speed_unit(suffix) {
                Some(per) => if i64::MIN <= n * per <= i64::MAX {
                    Some((n * per) as i64)
                } else {
                    None
                },
                None => None,
            },
            None => None,
        }
    } else {
        None
    }
}

pub fn speed_from_identity(identity: &str) -> (r: Option<i64>)
    ensures
        r == speed_of_identity(identity@),
{
    let u = chars_of(unqualified(identity).as_str());
    if !starts_with_speed(&u) {
        return None;
    }
    let (digits, suffix) = speed_parts(&u);
    let n = match parse_i64(string_of(digits.as_slice()).as_str()) {
        Some(n) => n,
        None => return None,
    };
    let per: i64 = if chars_equal_str(&suffix, "MB") {
        1_000_000
    } else if chars_equal_str(&suffix, "GB") {
        1_000_000_000
    } else if chars_equal_str(&suffix, "TB") {
        1_000_000_000_000
    } else {
        return None;
    };
    n.checked_mul(per)
}

/// The number and the unit of a speed identity, after `SPEED_`.
fn speed_parts(u: &Vec<char>) -> (r: (Vec<char>, Vec<char>))
    requires
        u@.len() >= 6,
    ensures
        ({
            let rest = u@.subrange(6, u@.len() as int);
            let digits = trim_letters_end(rest);
            r.0@ == digits && r.1@ == rest.subrange(digits.len() as int, rest.len() as int)
        }),
{
    let mut rest: Vec<char> = Vec::new();
    let mut i: usize = 6;
    while i < u.len()
        invariant
            6 <= i <= u@.len(),
            rest@ == u@.subrange(6, i as int),
        decreases u.len() - i,
    {
        rest.push(u[i]);
        i = i + 1;
        assert(rest@ =~= u@.subrange(6, i as int));
    }
    let mut end: usize = rest.len();
    assert(rest@.subrange(0, rest@.len() as int) =~= rest@);
    while end > 0 && (('a' <= rest[end - 1] && rest[end - 1] <= 'z') || ('A' <= rest[end - 1]
        && rest[end - 1] <= 'Z'))
        invariant
            end <= rest@.len(),
            trim_letters_end(rest@) == trim_letters_end(rest@.subrange(0, end as int)),
        decreases end,
    {
        assert(rest@.subrange(0, end as int).drop_last() =~= rest@.subrange(0, end - 1));
        end = end - 1;
    }
    proof {
        let t = rest@.subrange(0, end as int);
        assert(trim_letters_end(t) == t);
    }
    let mut digits: Vec<char> = Vec::new();
    let mut suffix: Vec<char> = Vec::new();
    let mut j: usize = 0;
    while j < rest.len()
        invariant
            j <= rest@.len(),
            end <= rest@.len(),
            digits@ == rest@.subrange(0, if j < end { j as int } else { end as int }),
            suffix@ == rest@.subrange(end as int, if j < end { end as int } else { j as int }),
        decreases rest.len() - j,
    {
        if j < end {
            digits.push(rest[j]);
        } else {
            suffix.push(rest[j]);
        }
        j = j + 1;
        assert(digits@ =~= rest@.subrange(0, if j < end { j as int } else { end as int }));
        assert(suffix@ =~= rest@.subrange(end as int, if j < end { end as int } else { j as int }));
    }
    (digits, suffix)
}

fn starts_with_speed(u: &Vec<char>) -> (r: bool)
    ensures
        r == (u@.len() >= 6 && u@.subrange(0, 6) == "SPEED_"@),
{
    proof {
        reveal_strlit("SPEED_");
    }
    if u.len() < 6 {
        return false;
    }
    let r = u[0] == 'S' && u[1] == 'P' && u[2] == 'E' && u[3] == 'E' && u[4] == 'D' && u[5] == '_';
    assert("SPEED_"@ =~= seq!['S', 'P', 'E', 'E', 'D', '_']);
    if r {
        assert(u@.subrange(0, 6) =~= seq!['S', 'P', 'E', 'E', 'D', '_']);
    } else {
        assert(u@.subrange(0, 6) != seq!['S', 'P', 'E', 'E', 'D', '_']) by {
            if u@.subrange(0, 6) == seq!['S', 'P', 'E', 'E', 'D', '_'] {
                assert(u@.subrange(0, 6)[0] == 'S');
                assert(u@.subrange(0, 6)[1] == 'P');
                assert(u@.subrange(0, 6)[2] == 'E');
                assert(u@.subrange(0, 6)[3] == 'E');
                assert(u@.subrange(0, 6)[4] == 'D');
                assert(u@.subrange(0, 6)[5] == '_');
            }
        }
    }
    r
}

fn chars_equal_str(v: &Vec<char>, s: &str) -> (r: bool)
    ensures
        r == (v@ == s@),
{
    let w = chars_of(s);
    crate::text::chars_eq(v.as_slice(), w.as_slice())
}

/// `openconfig-interfaces` `admin-status` as ifAdminStatus: `DOWN` and `TESTING` as named,
/// anything else (`UP`, or absent) up.
pub open spec fn admin_status_of_text(v: Option<Seq<char>>) -> IfAdminStatus {
    match v {
        Some(t) => if t == "DOWN"@ {
            IfAdminStatus::Down
        } else if t == "TESTING"@ {
            IfAdminStatus::Testing
        } else {
            IfAdminStatus::Up
        },
        None => IfAdminStatus::Up,
    }
}

pub fn admin_status(v: Option<&str>) -> (r: IfAdminStatus)
    ensures
        r == admin_status_of_text(opt_str(v)),
{
    match v {
        Some(t) => if str_eq(t, "DOWN") {
            IfAdminStatus::Down
        } else if str_eq(t, "TESTING") {
            IfAdminStatus::Testing
        } else {
            IfAdminStatus::Up
        },
        None => IfAdminStatus::Up,
    }
}

/// An interface a device reports as administratively `DOWN` is recorded down (ifAdminStatus 2),
/// and one in `TESTING` as testing (3); every other value, and no value, is up (1). So a port an
/// operator shut is never reported as enabled, and an enabled one never as shut.
pub proof fn lemma_admin_status_says_what_the_device_said(t: Seq<char>)
    ensures
        (admin_status_of_text(Some(t)) == IfAdminStatus::Down) == (t == "DOWN"@),
        (admin_status_of_text(Some(t)) == IfAdminStatus::Testing) == (t == "TESTING"@),
        (admin_status_of_text(Some(t)) == IfAdminStatus::Up) == (t != "DOWN"@ && t != "TESTING"@),
        admin_status_of_text(None) == IfAdminStatus::Up,
        crate::interfaces::admin_status_number(admin_status_of_text(Some("DOWN"@))) == 2,
        crate::interfaces::admin_status_number(admin_status_of_text(Some("TESTING"@))) == 3,
        crate::interfaces::admin_status_number(admin_status_of_text(Some("UP"@))) == 1,
{
    reveal_strlit("DOWN");
    reveal_strlit("TESTING");
    reveal_strlit("UP");
    assert("DOWN"@ != "TESTING"@) by {
        assert("DOWN"@.len() != "TESTING"@.len());
    }
    assert("UP"@ != "DOWN"@ && "UP"@ != "TESTING"@) by {
        assert("UP"@.len() == 2);
    }
}

/// A row built from an interface's leaves is administratively down exactly when the device said
/// `DOWN`, and up when it said nothing.
pub proof fn lemma_a_shut_port_row_is_down(
    b: InterfaceBase,
    name: Seq<char>,
    l: InterfaceLeaves,
    n: Option<NeighborLeaves>,
    host_id: u128,
    network_id: u128,
)
    requires
        row_matches(b, name, l, n, host_id, network_id),
    ensures
        (b.admin_status == Some(IfAdminStatus::Down)) == (l.admin_status is Some && l.admin_status->0@
            == "DOWN"@),
        l.admin_status is None ==> b.admin_status == Some(IfAdminStatus::Up),
{
    if let Some(t) = l.admin_status {
        lemma_admin_status_says_what_the_device_said(t@);
    }
}

/// `openconfig-interfaces` `oper-status` as ifOperStatus, same enumerators as IF-MIB; anything
/// else, or absent, unknown.
pub open spec fn oper_status_of_text(v: Option<Seq<char>>) -> IfOperStatus {
    match v {
        Some(t) => if t == "UP"@ {
            IfOperStatus::Up
        } else if t == "DOWN"@ {
            IfOperStatus::Down
        } else if t == "TESTING"@ {
            IfOperStatus::Testing
        } else if t == "DORMANT"@ {
            IfOperStatus::Dormant
        } else if t == "NOT_PRESENT"@ {
            IfOperStatus::NotPresent
        } else if t == "LOWER_LAYER_DOWN"@ {
            IfOperStatus::LowerLayerDown
        } else {
            IfOperStatus::Unknown
        },
        None => IfOperStatus::Unknown,
    }
}

pub fn oper_status(v: Option<&str>) -> (r: IfOperStatus)
    ensures
        r == oper_status_of_text(opt_str(v)),
{
    match v {
        Some(t) => if str_eq(t, "UP") {
            IfOperStatus::Up
        } else if str_eq(t, "DOWN") {
            IfOperStatus::Down
        } else if str_eq(t, "TESTING") {
            IfOperStatus::Testing
        } else if str_eq(t, "DORMANT") {
            IfOperStatus::Dormant
        } else if str_eq(t, "NOT_PRESENT") {
            IfOperStatus::NotPresent
        } else if str_eq(t, "LOWER_LAYER_DOWN") {
            IfOperStatus::LowerLayerDown
        } else {
            IfOperStatus::Unknown
        },
        None => IfOperStatus::Unknown,
    }
}

/// Each `oper-status` a device reports is recorded as the IF-MIB status of the same name, and
/// anything else, or nothing, as unknown: a running port is never recorded down, nor a down one
/// up.
pub proof fn lemma_oper_status_says_what_the_device_said(t: Seq<char>)
    ensures
        (oper_status_of_text(Some(t)) == IfOperStatus::Up) == (t == "UP"@),
        (oper_status_of_text(Some(t)) == IfOperStatus::Down) == (t == "DOWN"@),
        (oper_status_of_text(Some(t)) == IfOperStatus::Testing) == (t == "TESTING"@),
        (oper_status_of_text(Some(t)) == IfOperStatus::Dormant) == (t == "DORMANT"@),
        (oper_status_of_text(Some(t)) == IfOperStatus::NotPresent) == (t == "NOT_PRESENT"@),
        (oper_status_of_text(Some(t)) == IfOperStatus::LowerLayerDown) == (t == "LOWER_LAYER_DOWN"@),
        oper_status_of_text(None) == IfOperStatus::Unknown,
{
    reveal_strlit("UP");
    reveal_strlit("DOWN");
    reveal_strlit("TESTING");
    reveal_strlit("DORMANT");
    reveal_strlit("NOT_PRESENT");
    reveal_strlit("LOWER_LAYER_DOWN");
    assert("TESTING"@ != "DORMANT"@) by {
        assert("TESTING"@[0] != "DORMANT"@[0]);
    }
    assert("UP"@.len() == 2 && "DOWN"@.len() == 4 && "TESTING"@.len() == 7 && "NOT_PRESENT"@.len() == 11
        && "LOWER_LAYER_DOWN"@.len() == 16);
}

/// A chassis id from an `openconfig-lldp-types` identity and value. An unknown or absent type
/// reads the value as [`LldpChassisId::from_identifier_str`] does.
pub open spec fn chassis_of_type(id: Seq<char>, id_type: Option<Seq<char>>) -> Option<ChassisView> {
    let t = match id_type {
        Some(t) => Some(unqualified_spec(t)),
        None => None,
    };
    if t == Some("MAC_ADDRESS"@) {
        match canonical_mac_spec(id) {
            Some(m) => Some(ChassisView::MacAddress(m)),
            None => None,
        }
    } else if t == Some("INTERFACE_NAME"@) {
        Some(ChassisView::InterfaceName(id))
    } else if t == Some("INTERFACE_ALIAS"@) {
        Some(ChassisView::InterfaceAlias(id))
    } else if t == Some("NETWORK_ADDRESS"@) {
        match parse_ip_spec(id) {
            Some(a) => Some(ChassisView::NetworkAddress(a)),
            None => None,
        }
    } else if t == Some("LOCAL"@) {
        Some(ChassisView::LocallyAssigned(id))
    } else if t == Some("CHASSIS_COMPONENT"@) {
        Some(ChassisView::ChassisComponent(id))
    } else if t == Some("PORT_COMPONENT"@) {
        Some(ChassisView::PortComponent(id))
    } else {
        Some(chassis_from_identifier_spec(id))
    }
}

/// A port id from an `openconfig-lldp-types` identity and value, likewise.
pub open spec fn port_of_type(id: Seq<char>, id_type: Option<Seq<char>>) -> Option<PortView> {
    let t = match id_type {
        Some(t) => Some(unqualified_spec(t)),
        None => None,
    };
    if t == Some("MAC_ADDRESS"@) {
        match canonical_mac_spec(id) {
            Some(m) => Some(PortView::MacAddress(m)),
            None => None,
        }
    } else if t == Some("INTERFACE_NAME"@) {
        Some(PortView::InterfaceName(id))
    } else if t == Some("INTERFACE_ALIAS"@) {
        Some(PortView::InterfaceAlias(id))
    } else if t == Some("NETWORK_ADDRESS"@) {
        match parse_ip_spec(id) {
            Some(a) => Some(PortView::NetworkAddress(a)),
            None => None,
        }
    } else if t == Some("LOCAL"@) {
        Some(PortView::LocallyAssigned(id))
    } else if t == Some("PORT_COMPONENT"@) {
        Some(PortView::PortComponent(id))
    } else if t == Some("AGENT_CIRCUIT_ID"@) {
        Some(PortView::AgentCircuitId(id))
    } else {
        Some(port_from_identifier_spec(id))
    }
}

fn type_is(t: &Option<String>, name: &str) -> (r: bool)
    ensures
        r == (crate::lldp::opt_text(*t) == Some(name@)),
{
    match t {
        Some(x) => str_eq(x.as_str(), name),
        None => false,
    }
}

fn unqualified_opt(t: Option<&str>) -> (r: Option<String>)
    ensures
        crate::lldp::opt_text(r) == (match t {
            Some(x) => Some(unqualified_spec(x@)),
            None => None,
        }),
{
    match t {
        Some(x) => Some(unqualified(x)),
        None => None,
    }
}

pub fn map_chassis(id: &str, id_type: Option<&str>) -> (r: Option<LldpChassisId>)
    ensures
        chassis_opt(r) == chassis_of_type(id@, opt_str(id_type)),
{
    let t = unqualified_opt(id_type);
    let owned = id.to_owned();
    if type_is(&t, "MAC_ADDRESS") {
        match canonical_mac(id) {
            Some(m) => Some(LldpChassisId::MacAddress(m)),
            None => None,
        }
    } else if type_is(&t, "INTERFACE_NAME") {
        Some(LldpChassisId::InterfaceName(owned))
    } else if type_is(&t, "INTERFACE_ALIAS") {
        Some(LldpChassisId::InterfaceAlias(owned))
    } else if type_is(&t, "NETWORK_ADDRESS") {
        match parse_ip(id) {
            Some(a) => Some(LldpChassisId::NetworkAddress(a)),
            None => None,
        }
    } else if type_is(&t, "LOCAL") {
        Some(LldpChassisId::LocallyAssigned(owned))
    } else if type_is(&t, "CHASSIS_COMPONENT") {
        Some(LldpChassisId::ChassisComponent(owned))
    } else if type_is(&t, "PORT_COMPONENT") {
        Some(LldpChassisId::PortComponent(owned))
    } else {
        Some(LldpChassisId::from_identifier_str(id))
    }
}

pub fn map_port(id: &str, id_type: Option<&str>) -> (r: Option<LldpPortId>)
    ensures
        port_opt(r) == port_of_type(id@, opt_str(id_type)),
{
    let t = unqualified_opt(id_type);
    let owned = id.to_owned();
    if type_is(&t, "MAC_ADDRESS") {
        match canonical_mac(id) {
            Some(m) => Some(LldpPortId::MacAddress(m)),
            None => None,
        }
    } else if type_is(&t, "INTERFACE_NAME") {
        Some(LldpPortId::InterfaceName(owned))
    } else if type_is(&t, "INTERFACE_ALIAS") {
        Some(LldpPortId::InterfaceAlias(owned))
    } else if type_is(&t, "NETWORK_ADDRESS") {
        match parse_ip(id) {
            Some(a) => Some(LldpPortId::NetworkAddress(a)),
            None => None,
        }
    } else if type_is(&t, "LOCAL") {
        Some(LldpPortId::LocallyAssigned(owned))
    } else if type_is(&t, "PORT_COMPONENT") {
        Some(LldpPortId::PortComponent(owned))
    } else if type_is(&t, "AGENT_CIRCUIT_ID") {
        Some(LldpPortId::AgentCircuitId(owned))
    } else {
        Some(LldpPortId::from_identifier_str(id))
    }
}

// ---------------------------------------------------------------------------------------------
// Paths
// ---------------------------------------------------------------------------------------------

/// One element of a gNMI path: a name, and the list keys that select entries.
#[derive(Debug, Clone, PartialEq, Eq)]
pub struct PathElem {
    pub name: String,
    pub key: Vec<(String, String)>,
}

/// A gNMI path: the schema tree it is rooted in, and its elements.
#[derive(Debug, Clone, PartialEq, Eq)]
pub struct Path {
    pub origin: String,
    pub elem: Vec<PathElem>,
}

/// A path element by its name and keys.
pub type ElemView = (Seq<char>, Seq<(Seq<char>, Seq<char>)>);

pub open spec fn keys_view(k: Seq<(String, String)>) -> Seq<(Seq<char>, Seq<char>)> {
    k.map_values(|p: (String, String)| (p.0@, p.1@))
}

pub open spec fn elem_view(e: PathElem) -> ElemView {
    (e.name@, keys_view(e.key@))
}

pub open spec fn elems_view(es: Seq<PathElem>) -> Seq<ElemView> {
    es.map_values(|e: PathElem| elem_view(e))
}

/// The first index of `c` in `s` at or after `i`.
pub open spec fn index_of(s: Seq<char>, c: char, i: int) -> Option<int>
    decreases s.len() - i,
{
    if i < 0 || i >= s.len() {
        None
    } else if s[i] == c {
        Some(i)
    } else {
        index_of(s, c, i + 1)
    }
}

/// `s` with trailing `]` removed.
pub open spec fn trim_brackets_end(s: Seq<char>) -> Seq<char>
    decreases s.len(),
{
    if s.len() > 0 && s.last() == ']' {
        trim_brackets_end(s.drop_last())
    } else {
        s
    }
}

/// A path element written `name` or `name[key=value]`, read: the name before the first `[`;
/// after it, with trailing `]` removed, the key before the first `=` and the value after it.
/// `None` for a bracketed element with no `=`.
pub open spec fn parse_elem_spec(e: Seq<char>) -> Option<ElemView> {
    match index_of(e, '[', 0) {
        None => Some((e, Seq::empty())),
        Some(b) => {
            let key = trim_brackets_end(e.subrange(b + 1, e.len() as int));
            match index_of(key, '=', 0) {
                Some(q) => Some((
                    e.subrange(0, b),
                    seq![(key.subrange(0, q), key.subrange(q + 1, key.len() as int))],
                )),
                None => None,
            }
        },
    }
}

/// One Subscribe: a path, and the origin whose schema tree it is rooted in.
#[derive(Debug, Clone, PartialEq, Eq)]
pub struct Subtree {
    /// gNMI `origin`; empty for the device's default tree.
    pub origin: &'static str,
    /// Path elements, each `name` or `name[key=value]`.
    pub elems: Vec<&'static str>,
}

/// Whether a subtree is `/interfaces/interface[name=*]/state` in the default tree.
pub open spec fn is_interface_state(t: Subtree) -> bool {
    &&& t.origin@ == ""@
    &&& t.elems@.len() == 3
    &&& t.elems@[0]@ == "interfaces"@
    &&& t.elems@[1]@ == "interface[name=*]"@
    &&& t.elems@[2]@ == "state"@
}

/// Whether a subtree is the path `elems` in the tree `origin`.
pub open spec fn subtree_is(t: Subtree, origin: Seq<char>, elems: Seq<Seq<char>>) -> bool {
    &&& t.origin@ == origin
    &&& t.elems@.len() == elems.len()
    &&& forall|i: int| 0 <= i < elems.len() ==> (#[trigger] t.elems@[i])@ == elems[i]
}

/// Whether two subtrees name the same path in the same tree.
pub open spec fn same_subtree(a: Subtree, b: Subtree) -> bool {
    &&& a.origin@ == b.origin@
    &&& a.elems@.len() == b.elems@.len()
    &&& forall|i: int| 0 <= i < a.elems@.len() ==> (#[trigger] a.elems@[i])@ == b.elems@[i]@
}

/// Whether every element of a subtree reads as a path element.
pub open spec fn subtree_well_formed(t: Subtree) -> bool {
    forall|i: int| 0 <= i < t.elems@.len() ==> parse_elem_spec((#[trigger] t.elems@[i])@) is Some
}

fn index_of_char(s: &Vec<char>, c: char, start: usize) -> (r: Option<usize>)
    requires
        start <= s@.len(),
    ensures
        match r {
            Some(k) => index_of(s@, c, start as int) == Some(k as int) && k < s@.len(),
            None => index_of(s@, c, start as int) is None,
        },
{
    let mut i: usize = start;
    while i < s.len()
        invariant
            start <= i <= s@.len(),
            index_of(s@, c, start as int) == index_of(s@, c, i as int),
        decreases s.len() - i,
    {
        if s[i] == c {
            return Some(i);
        }
        i = i + 1;
    }
    None
}

fn chars_between(s: &Vec<char>, lo: usize, hi: usize) -> (r: Vec<char>)
    requires
        lo <= hi <= s@.len(),
    ensures
        r@ == s@.subrange(lo as int, hi as int),
{
    let mut out: Vec<char> = Vec::new();
    let mut i: usize = lo;
    while i < hi
        invariant
            lo <= i <= hi <= s@.len(),
            out@ == s@.subrange(lo as int, i as int),
        decreases hi - i,
    {
        out.push(s[i]);
        i = i + 1;
        assert(out@ =~= s@.subrange(lo as int, i as int));
    }
    out
}

fn parse_elem(e: &str) -> (r: Option<PathElem>)
    ensures
        match r {
            Some(p) => parse_elem_spec(e@) == Some(elem_view(p)),
            None => parse_elem_spec(e@) is None,
        },
{
    let v = chars_of(e);
    let len = v.len();
    match index_of_char(&v, '[', 0) {
        None => Some(PathElem { name: e.to_owned(), key: Vec::new() }),
        Some(b) => {
            let after = chars_between(&v, b + 1, v.len());
            let mut end: usize = after.len();
            assert(after@.subrange(0, after@.len() as int) =~= after@);
            while end > 0 && after[end - 1] == ']'
                invariant
                    end <= after@.len(),
                    trim_brackets_end(after@) == trim_brackets_end(after@.subrange(0, end as int)),
                decreases end,
            {
                assert(after@.subrange(0, end as int).drop_last() =~= after@.subrange(0, end - 1));
                end = end - 1;
            }
            let key = chars_between(&after, 0, end);
            assert(trim_brackets_end(key@) == key@);
            match index_of_char(&key, '=', 0) {
                Some(q) => {
                    let name = string_of(chars_between(&v, 0, b).as_slice());
                    let k = string_of(chars_between(&key, 0, q).as_slice());
                    let val = string_of(chars_between(&key, q + 1, key.len()).as_slice());
                    let mut keys: Vec<(String, String)> = Vec::new();
                    keys.push((k, val));
                    let p = PathElem { name, key: keys };
                    assert(keys_view(p.key@) =~= seq![(key@.subrange(0, q as int), key@.subrange(q + 1, key@.len() as int))]);
                    Some(p)
                },
                None => None,
            }
        },
    }
}

impl Subtree {
    /// `/interfaces/interface[name=*]/state`: the rows. Its refusal aborts a collection.
    pub fn interface_state() -> (r: Self)
        ensures
            is_interface_state(r),
    {
        Subtree { origin: "", elems: vec!["interfaces", "interface[name=*]", "state"] }
    }

    /// `/interfaces/interface[name=*]/ethernet/state`: MAC and port speed, where served.
    pub fn ethernet_state() -> (r: Self)
        ensures
            subtree_is(r, ""@, seq!["interfaces"@, "interface[name=*]"@, "ethernet"@, "state"@]),
    {
        Subtree { origin: "", elems: vec!["interfaces", "interface[name=*]", "ethernet", "state"] }
    }

    /// Whether every element reads as a path element; [`Self::path`] requires it.
    pub fn is_well_formed(&self) -> (r: bool)
        ensures
            r == subtree_well_formed(*self),
    {
        let mut i: usize = 0;
        while i < self.elems.len()
            invariant
                i <= self.elems@.len(),
                forall|j: int| 0 <= j < i ==> parse_elem_spec((#[trigger] self.elems@[j])@) is Some,
            decreases self.elems.len() - i,
        {
            if parse_elem(self.elems[i]).is_none() {
                return false;
            }
            i = i + 1;
        }
        true
    }

    /// Whether a device refusing this subtree fails the collection: only
    /// `/interfaces/interface/state` is required; every other subtree is optional.
    pub fn is_required(&self) -> (r: bool)
        ensures
            r == is_interface_state(*self),
    {
        str_eq(self.origin, "") && self.elems.len() == 3 && str_eq(self.elems[0], "interfaces")
            && str_eq(self.elems[1], "interface[name=*]") && str_eq(self.elems[2], "state")
    }

    /// What a device refusing this subtree with `device_message` makes of the collection: for
    /// the required subtree the error, which says so ahead of the device's own words; for an
    /// optional one nothing, and the collection goes on.
    pub fn refusal_error(&self, device_message: &str) -> (r: Option<String>)
        ensures
            r is Some <==> is_interface_state(*self),
            r matches Some(e) ==> e@ == "openconfig-interfaces is required and was not served: "@
                + device_message@,
    {
        if self.is_required() {
            let mut out = chars_of("openconfig-interfaces is required and was not served: ");
            let msg = chars_of(device_message);
            let ghost head = out@;
            let mut i: usize = 0;
            while i < msg.len()
                invariant
                    i <= msg@.len(),
                    out@ == head + msg@.subrange(0, i as int),
                decreases msg.len() - i,
            {
                out.push(msg[i]);
                i = i + 1;
                assert(out@ =~= head + msg@.subrange(0, i as int));
            }
            assert(msg@.subrange(0, msg@.len() as int) =~= msg@);
            Some(string_of(out.as_slice()))
        } else {
            None
        }
    }

    /// The gNMI path: the origin, and each element read as `name` or `name[key=value]`.
    pub fn path(&self) -> (r: Path)
        requires
            subtree_well_formed(*self),
        ensures
            r.origin@ == self.origin@,
            r.elem@.len() == self.elems@.len(),
            forall|i: int|
                0 <= i < r.elem@.len() ==> parse_elem_spec(self.elems@[i]@) == Some(
                    elem_view(#[trigger] r.elem@[i]),
                ),
    {
        let mut out: Vec<PathElem> = Vec::new();
        let mut i: usize = 0;
        while i < self.elems.len()
            invariant
                i <= self.elems@.len(),
                subtree_well_formed(*self),
                out@.len() == i,
                forall|j: int|
                    0 <= j < i ==> parse_elem_spec(self.elems@[j]@) == Some(
                        elem_view(#[trigger] out@[j]),
                    ),
            decreases self.elems.len() - i,
        {
            assert(parse_elem_spec(self.elems@[i as int]@) is Some);
            match parse_elem(self.elems[i]) {
                Some(p) => out.push(p),
                None => {},
            }
            i = i + 1;
        }
        Path { origin: self.origin.to_owned(), elem: out }
    }
}

// ---------------------------------------------------------------------------------------------
// LLDP model profiles
// ---------------------------------------------------------------------------------------------

/// Which LLDP YANG model a device serves, and what it takes to read it: the subtrees to
/// Subscribe to, the path elements above the model's `lldp` root, and what the model calls the
/// container openconfig calls `state`.
#[derive(Debug, Clone, PartialEq, Eq)]
pub struct LldpModelProfile {
    /// The YANG module name the device advertises in `Capabilities`.
    pub module: &'static str,
    /// The subtrees to read for this model, each its own Subscribe.
    pub subtrees: Vec<Subtree>,
    /// Path elements above the model's `lldp` root, stripped on the way in.
    pub root: Vec<&'static str>,
    /// The model's name for openconfig's `state` container.
    pub state_container: &'static str,
}

/// `openconfig-lldp`, rooted at `/lldp`: `/lldp/state` for the device's own chassis id and
/// `/lldp/interfaces/interface[name=*]` for the neighbours.
pub fn openconfig_lldp() -> (r: LldpModelProfile)
    ensures
        is_openconfig_profile(r),
{
    LldpModelProfile {
        module: "openconfig-lldp",
        subtrees: vec![
            Subtree { origin: "", elems: vec!["lldp", "state"] },
            Subtree { origin: "", elems: vec!["lldp", "interfaces", "interface[name=*]"] },
        ],
        root: Vec::new(),
        state_container: "state",
    }
}

/// The openconfig profile: rooted at `/lldp`, `state` called `state`, reading `/lldp/state`
/// and then `/lldp/interfaces/interface[name=*]`.
pub open spec fn is_openconfig_profile(p: LldpModelProfile) -> bool {
    &&& p.module@ == "openconfig-lldp"@
    &&& p.root@.len() == 0
    &&& p.state_container@ == "state"@
    &&& p.subtrees@.len() == 2
    &&& subtree_is(p.subtrees@[0], ""@, seq!["lldp"@, "state"@])
    &&& subtree_is(p.subtrees@[1], ""@, seq!["lldp"@, "interfaces"@, "interface[name=*]"@])
}

/// The DriveNets profile: rooted under `/drivenets-top/protocols`, `state` called
/// `oper-items`, reading `/drivenets-top/protocols/lldp` whole.
pub open spec fn is_dn_profile(p: LldpModelProfile) -> bool {
    &&& p.module@ == "dn-lldp"@
    &&& p.root@.len() == 2
    &&& p.root@[0]@ == "drivenets-top"@ && p.root@[1]@ == "protocols"@
    &&& p.state_container@ == "oper-items"@
    &&& p.subtrees@.len() == 1
    &&& subtree_is(p.subtrees@[0], ""@, seq!["drivenets-top"@, "protocols"@, "lldp"@])
}

/// `dn-lldp`, DriveNets' native LLDP under `/drivenets-top/protocols/lldp`, whose `state`
/// container is called `oper-items`.
pub fn dn_lldp() -> (r: LldpModelProfile)
    ensures
        is_dn_profile(r),
{
    LldpModelProfile {
        module: "dn-lldp",
        subtrees: vec![Subtree { origin: "", elems: vec!["drivenets-top", "protocols", "lldp"] }],
        root: vec!["drivenets-top", "protocols"],
        state_container: "oper-items",
    }
}

/// Whether a device advertising `models` advertises `module`, compared unqualified.
pub open spec fn advertises(models: Seq<String>, module: Seq<char>) -> bool {
    exists|i: int| 0 <= i < models.len() && unqualified_spec((#[trigger] models[i])@) == module
}

fn advertises_module(models: &[String], module: &str) -> (r: bool)
    ensures
        r == advertises(models@, module@),
{
    let mut i: usize = 0;
    while i < models.len()
        invariant
            i <= models@.len(),
            forall|j: int| 0 <= j < i ==> unqualified_spec((#[trigger] models@[j])@) != module@,
        decreases models.len() - i,
    {
        let u = unqualified(models[i].as_str());
        if str_eq(u.as_str(), module) {
            return true;
        }
        i = i + 1;
    }
    false
}

impl LldpModelProfile {
    /// The profile for a device, chosen from what it advertises, in preference order: openconfig
    /// first, then DriveNets' native model. `None` when it advertises neither.
    pub fn select(models: &[String]) -> (r: Option<LldpModelProfile>)
        ensures
            advertises(models@, "openconfig-lldp"@) ==> (r is Some && is_openconfig_profile(r->0)),
            !advertises(models@, "openconfig-lldp"@) && advertises(models@, "dn-lldp"@) ==> (r is Some
                && is_dn_profile(r->0)),
            !advertises(models@, "openconfig-lldp"@) && !advertises(models@, "dn-lldp"@) ==> r is None,
    {
        if advertises_module(models, "openconfig-lldp") {
            Some(openconfig_lldp())
        } else if advertises_module(models, "dn-lldp") {
            Some(dn_lldp())
        } else {
            None
        }
    }
}

/// Which LLDP model a collection read, as far as the device's own `Capabilities` says.
#[derive(Debug, Clone, Copy, PartialEq, Eq)]
pub enum LldpModel {
    /// The device advertised this model, and it is the one that was read.
    Advertised(&'static str),
    /// The device advertised no LLDP model this collector has a profile for; openconfig is read
    /// anyway.
    NoneAdvertised,
}

impl LldpModel {
    /// How the model is named in a log line.
    pub fn describe(&self) -> (r: &'static str)
        ensures
            match *self {
                LldpModel::Advertised(m) => r == m,
                LldpModel::NoneAdvertised => r@ == "none advertised"@,
            },
    {
        match self {
            LldpModel::Advertised(m) => m,
            LldpModel::NoneAdvertised => "none advertised",
        }
    }
}

/// The collection plan for a device advertising `models`: the model it reports, the profile
/// read (openconfig when none is advertised), and the subtrees to Subscribe to, the interface
/// subtrees first.
pub fn collection_plan(models: &[String]) -> (r: (LldpModel, LldpModelProfile, Vec<Subtree>))
    ensures
        advertises(models@, "openconfig-lldp"@) ==> r.0 == LldpModel::Advertised(r.1.module)
            && is_openconfig_profile(r.1),
        !advertises(models@, "openconfig-lldp"@) && advertises(models@, "dn-lldp"@) ==> r.0
            == LldpModel::Advertised(r.1.module) && is_dn_profile(r.1),
        !advertises(models@, "openconfig-lldp"@) && !advertises(models@, "dn-lldp"@) ==> r.0
            == LldpModel::NoneAdvertised && is_openconfig_profile(r.1),
        r.2@.len() == 2 + r.1.subtrees@.len(),
        is_interface_state(r.2@[0]),
        subtree_is(r.2@[1], ""@, seq!["interfaces"@, "interface[name=*]"@, "ethernet"@, "state"@]),
        forall|i: int| 0 <= i < r.1.subtrees@.len() ==> same_subtree(#[trigger] r.2@[2 + i], r.1.subtrees@[i]),
{
    let selected = LldpModelProfile::select(models);
    let (model, profile) = match selected {
        Some(p) => (LldpModel::Advertised(p.module), p),
        None => (LldpModel::NoneAdvertised, openconfig_lldp()),
    };
    let mut subtrees: Vec<Subtree> = Vec::new();
    subtrees.push(Subtree::interface_state());
    subtrees.push(Subtree::ethernet_state());
    let mut i: usize = 0;
    while i < profile.subtrees.len()
        invariant
            i <= profile.subtrees@.len(),
            subtrees@.len() == 2 + i,
            is_interface_state(subtrees@[0]),
            subtree_is(subtrees@[1], ""@, seq!["interfaces"@, "interface[name=*]"@, "ethernet"@, "state"@]),
            forall|j: int| 0 <= j < i ==> same_subtree(#[trigger] subtrees@[2 + j], profile.subtrees@[j]),
        decreases profile.subtrees.len() - i,
    {
        subtrees.push(copy_subtree(&profile.subtrees[i]));
        i = i + 1;
    }
    (model, profile, subtrees)
}

/// A copy of a subtree: the same origin and the same elements.
fn copy_subtree(t: &Subtree) -> (r: Subtree)
    ensures
        same_subtree(r, *t),
{
    let mut elems: Vec<&'static str> = Vec::new();
    let mut i: usize = 0;
    while i < t.elems.len()
        invariant
            i <= t.elems@.len(),
            elems@ == t.elems@.subrange(0, i as int),
        decreases t.elems.len() - i,
    {
        elems.push(t.elems[i]);
        assert(elems@ =~= t.elems@.subrange(0, i + 1));
        i = i + 1;
    }
    Subtree { origin: t.origin, elems }
}

// ---------------------------------------------------------------------------------------------
// Text order
// ---------------------------------------------------------------------------------------------

/// Lexicographic order on text by code point, the order `String` compares in.
pub open spec fn text_lt(a: Seq<char>, b: Seq<char>) -> bool
    decreases a.len(),
{
    if a.len() == 0 {
        b.len() > 0
    } else if b.len() == 0 {
        false
    } else if a[0] != b[0] {
        a[0] < b[0]
    } else {
        text_lt(a.drop_first(), b.drop_first())
    }
}

/// No text orders before itself.
pub proof fn lemma_text_lt_irreflexive(a: Seq<char>)
    ensures
        !text_lt(a, a),
    decreases a.len(),
{
    if a.len() > 0 {
        lemma_text_lt_irreflexive(a.drop_first());
    }
}

/// Of two different texts, one orders before the other.
pub proof fn lemma_text_lt_total(a: Seq<char>, b: Seq<char>)
    ensures
        a == b || text_lt(a, b) || text_lt(b, a),
        !(text_lt(a, b) && text_lt(b, a)),
    decreases a.len(),
{
    if a.len() > 0 && b.len() > 0 && a[0] == b[0] {
        lemma_text_lt_total(a.drop_first(), b.drop_first());
        if a.drop_first() == b.drop_first() {
            assert(a =~= seq![a[0]] + a.drop_first());
            assert(b =~= seq![b[0]] + b.drop_first());
        }
    } else if a.len() == 0 && b.len() == 0 {
        assert(a =~= b);
    }
}

/// Text order is transitive.
pub proof fn lemma_text_lt_transitive(a: Seq<char>, b: Seq<char>, c: Seq<char>)
    requires
        text_lt(a, b),
        text_lt(b, c),
    ensures
        text_lt(a, c),
    decreases a.len(),
{
    if a.len() > 0 && b.len() > 0 && c.len() > 0 && a[0] == b[0] && b[0] == c[0] {
        lemma_text_lt_transitive(a.drop_first(), b.drop_first(), c.drop_first());
    }
}

/// Whether `a` sorts before `b`.
pub fn text_less(a: &str, b: &str) -> (r: bool)
    ensures
        r == text_lt(a@, b@),
{
    let x = chars_of(a);
    let y = chars_of(b);
    let mut i: usize = 0;
    assert(x@.subrange(0, x@.len() as int) =~= x@);
    assert(y@.subrange(0, y@.len() as int) =~= y@);
    while i < x.len() && i < y.len()
        invariant
            i <= x@.len(),
            i <= y@.len(),
            x@ == a@,
            y@ == b@,
            text_lt(a@, b@) == text_lt(x@.subrange(i as int, x@.len() as int), y@.subrange(i as int, y@.len() as int)),
        decreases x.len() - i,
    {
        let ghost xs = x@.subrange(i as int, x@.len() as int);
        let ghost ys = y@.subrange(i as int, y@.len() as int);
        assert(xs[0] == x@[i as int] && ys[0] == y@[i as int]);
        if x[i] != y[i] {
            return x[i] < y[i];
        }
        assert(xs.drop_first() =~= x@.subrange(i + 1, x@.len() as int));
        assert(ys.drop_first() =~= y@.subrange(i + 1, y@.len() as int));
        i = i + 1;
    }
    if i >= x.len() {
        assert(x@.subrange(i as int, x@.len() as int).len() == 0);
        i < y.len()
    } else {
        false
    }
}

/// The order on neighbour keys: by local interface name, then by neighbour id.
pub open spec fn pair_lt(a: (Seq<char>, Seq<char>), b: (Seq<char>, Seq<char>)) -> bool {
    text_lt(a.0, b.0) || (a.0 == b.0 && text_lt(a.1, b.1))
}

// ---------------------------------------------------------------------------------------------
// What a collection holds
// ---------------------------------------------------------------------------------------------

/// One interface's `openconfig-interfaces` state leaves.
#[derive(Debug, Clone, PartialEq, Eq)]
pub struct InterfaceLeaves {
    pub ifindex: Option<u64>,
    /// The `iana-if-type` identity, module prefix and all.
    pub if_type: Option<String>,
    pub description: Option<String>,
    pub admin_status: Option<String>,
    pub oper_status: Option<String>,
    pub mac_address: Option<String>,
    /// `port-speed` (or the negotiated one), an identity: `SPEED_10GB`.
    pub port_speed: Option<String>,
}

/// One neighbour's `openconfig-lldp` state leaves.
#[derive(Debug, Clone, PartialEq, Eq)]
pub struct NeighborLeaves {
    pub chassis_id: Option<String>,
    pub chassis_id_type: Option<String>,
    pub port_id: Option<String>,
    pub port_id_type: Option<String>,
    pub port_description: Option<String>,
    pub system_name: Option<String>,
    pub system_description: Option<String>,
    pub management_address: Option<String>,
}

impl InterfaceLeaves {
    pub fn empty() -> (r: Self)
        ensures
            r == empty_interface_leaves(),
    {
        InterfaceLeaves {
            ifindex: None,
            if_type: None,
            description: None,
            admin_status: None,
            oper_status: None,
            mac_address: None,
            port_speed: None,
        }
    }
}

pub open spec fn empty_interface_leaves() -> InterfaceLeaves {
    InterfaceLeaves {
        ifindex: None,
        if_type: None,
        description: None,
        admin_status: None,
        oper_status: None,
        mac_address: None,
        port_speed: None,
    }
}

pub open spec fn empty_neighbor_leaves() -> NeighborLeaves {
    NeighborLeaves {
        chassis_id: None,
        chassis_id_type: None,
        port_id: None,
        port_id_type: None,
        port_description: None,
        system_name: None,
        system_description: None,
        management_address: None,
    }
}

impl NeighborLeaves {
    pub fn empty() -> (r: Self)
        ensures
            r == empty_neighbor_leaves(),
    {
        NeighborLeaves {
            chassis_id: None,
            chassis_id_type: None,
            port_id: None,
            port_id_type: None,
            port_description: None,
            system_name: None,
            system_description: None,
            management_address: None,
        }
    }

    /// How many of the leaves that identify the far end this entry carries: chassis id,
    /// management address, system name and port id.
    pub fn evidence(&self) -> (r: usize)
        ensures
            r == evidence_of(*self),
    {
        let mut n: usize = 0;
        if self.chassis_id.is_some() {
            n = n + 1;
        }
        if self.management_address.is_some() {
            n = n + 1;
        }
        if self.system_name.is_some() {
            n = n + 1;
        }
        if self.port_id.is_some() {
            n = n + 1;
        }
        n
    }
}

pub open spec fn evidence_of(n: NeighborLeaves) -> nat {
    (if n.chassis_id is Some { 1nat } else { 0nat }) + (if n.management_address is Some {
        1nat
    } else {
        0nat
    }) + (if n.system_name is Some { 1nat } else { 0nat }) + (if n.port_id is Some {
        1nat
    } else {
        0nat
    })
}

/// An interface's leaves, under its name.
#[derive(Debug, Clone)]
pub struct InterfaceEntry {
    pub name: String,
    pub leaves: InterfaceLeaves,
}

/// A neighbour's leaves, under the local interface name and the neighbour id.
#[derive(Debug, Clone)]
pub struct NeighborEntry {
    pub interface: String,
    pub id: String,
    pub leaves: NeighborLeaves,
}

/// Everything the Subscribes yielded, keyed the way the models key it: interfaces by name and
/// neighbours by (local interface name, neighbour id), each in key order.
#[derive(Debug, Clone)]
pub struct Collection {
    pub interfaces: Vec<InterfaceEntry>,
    pub neighbors: Vec<NeighborEntry>,
    /// The device's own chassis identity, when it serves `/lldp/state`.
    pub local_chassis_id: Option<String>,
    pub local_chassis_id_type: Option<String>,
    /// Which LLDP model these neighbours came from.
    pub lldp_model: LldpModel,
}

/// Interface entries in strictly ascending name order.
pub open spec fn interfaces_sorted(e: Seq<InterfaceEntry>) -> bool {
    forall|i: int, j: int| 0 <= i < j < e.len() ==> text_lt(#[trigger] e[i].name@, #[trigger] e[j].name@)
}

pub open spec fn neighbor_key(e: NeighborEntry) -> (Seq<char>, Seq<char>) {
    (e.interface@, e.id@)
}

/// Neighbour entries in strictly ascending key order.
pub open spec fn neighbors_sorted(e: Seq<NeighborEntry>) -> bool {
    forall|i: int, j: int| 0 <= i < j < e.len() ==> pair_lt(neighbor_key(#[trigger] e[i]), neighbor_key(#[trigger] e[j]))
}

impl Collection {
    /// An empty collection that read the given model.
    pub fn new(lldp_model: LldpModel) -> (r: Self)
        ensures
            r.wf(),
            r.interfaces@.len() == 0 && r.neighbors@.len() == 0,
            r.local_chassis_id is None && r.local_chassis_id_type is None,
            r.lldp_model == lldp_model,
    {
        Collection {
            interfaces: Vec::new(),
            neighbors: Vec::new(),
            local_chassis_id: None,
            local_chassis_id_type: None,
            lldp_model,
        }
    }

    /// Keys in order, each once.
    pub open spec fn wf(&self) -> bool {
        interfaces_sorted(self.interfaces@) && neighbors_sorted(self.neighbors@)
    }

    /// The interface leaves by name.
    pub open spec fn interface_map(&self) -> Map<Seq<char>, InterfaceLeaves> {
        interface_entries_map(self.interfaces@)
    }

    /// The neighbour leaves by key.
    pub open spec fn neighbor_map(&self) -> Map<(Seq<char>, Seq<char>), NeighborLeaves> {
        neighbor_entries_map(self.neighbors@)
    }
}

pub open spec fn interface_entries_map(e: Seq<InterfaceEntry>) -> Map<Seq<char>, InterfaceLeaves>
    decreases e.len(),
{
    if e.len() == 0 {
        Map::empty()
    } else {
        interface_entries_map(e.drop_last()).insert(e.last().name@, e.last().leaves)
    }
}

pub open spec fn neighbor_entries_map(e: Seq<NeighborEntry>) -> Map<(Seq<char>, Seq<char>), NeighborLeaves>
    decreases e.len(),
{
    if e.len() == 0 {
        Map::empty()
    } else {
        neighbor_entries_map(e.drop_last()).insert(neighbor_key(e.last()), e.last().leaves)
    }
}

// ---------------------------------------------------------------------------------------------
// Finding and adding entries
// ---------------------------------------------------------------------------------------------

pub open spec fn if_views(e: Seq<InterfaceEntry>) -> Seq<(Seq<char>, InterfaceLeaves)> {
    e.map_values(|x: InterfaceEntry| (x.name@, x.leaves))
}

pub open spec fn nb_views(e: Seq<NeighborEntry>) -> Seq<((Seq<char>, Seq<char>), NeighborLeaves)> {
    e.map_values(|x: NeighborEntry| (neighbor_key(x), x.leaves))
}

/// The index of key `k` from `i` on.
pub open spec fn if_index_of(v: Seq<(Seq<char>, InterfaceLeaves)>, k: Seq<char>, i: int) -> Option<int>
    decreases v.len() - i,
{
    if i < 0 || i >= v.len() {
        None
    } else if v[i].0 == k {
        Some(i)
    } else {
        if_index_of(v, k, i + 1)
    }
}

/// Where key `k` goes to keep the entries in order: before the first larger key.
pub open spec fn if_insert_pos(v: Seq<(Seq<char>, InterfaceLeaves)>, k: Seq<char>, i: int) -> int
    decreases v.len() - i,
{
    if i < 0 || i >= v.len() {
        v.len() as int
    } else if text_lt(k, v[i].0) {
        i
    } else {
        if_insert_pos(v, k, i + 1)
    }
}

/// The entries with the leaves under `k` given `value` in field `f`: in place when present,
/// else added in key order, starting from empty leaves.
pub open spec fn if_upsert(
    v: Seq<(Seq<char>, InterfaceLeaves)>,
    k: Seq<char>,
    f: Option<IfField>,
    value: String,
) -> Seq<(Seq<char>, InterfaceLeaves)> {
    match if_index_of(v, k, 0) {
        Some(i) => v.update(i, (k, apply_if_field(v[i].1, f, value))),
        None => v.insert(if_insert_pos(v, k, 0), (k, apply_if_field(empty_interface_leaves(), f, value))),
    }
}

pub open spec fn nb_index_of(v: Seq<((Seq<char>, Seq<char>), NeighborLeaves)>, k: (Seq<char>, Seq<char>), i: int) -> Option<int>
    decreases v.len() - i,
{
    if i < 0 || i >= v.len() {
        None
    } else if v[i].0 == k {
        Some(i)
    } else {
        nb_index_of(v, k, i + 1)
    }
}

pub open spec fn nb_insert_pos(v: Seq<((Seq<char>, Seq<char>), NeighborLeaves)>, k: (Seq<char>, Seq<char>), i: int) -> int
    decreases v.len() - i,
{
    if i < 0 || i >= v.len() {
        v.len() as int
    } else if pair_lt(k, v[i].0) {
        i
    } else {
        nb_insert_pos(v, k, i + 1)
    }
}

pub open spec fn nb_upsert(
    v: Seq<((Seq<char>, Seq<char>), NeighborLeaves)>,
    k: (Seq<char>, Seq<char>),
    f: Option<NbField>,
    value: String,
) -> Seq<((Seq<char>, Seq<char>), NeighborLeaves)> {
    match nb_index_of(v, k, 0) {
        Some(i) => v.update(i, (k, apply_nb_field(v[i].1, f, value))),
        None => v.insert(nb_insert_pos(v, k, 0), (k, apply_nb_field(empty_neighbor_leaves(), f, value))),
    }
}

fn copy_interface_leaves(l: &InterfaceLeaves) -> (r: InterfaceLeaves)
    ensures
        r == *l,
{
    InterfaceLeaves {
        ifindex: l.ifindex,
        if_type: crate::text::copy_text(&l.if_type),
        description: crate::text::copy_text(&l.description),
        admin_status: crate::text::copy_text(&l.admin_status),
        oper_status: crate::text::copy_text(&l.oper_status),
        mac_address: crate::text::copy_text(&l.mac_address),
        port_speed: crate::text::copy_text(&l.port_speed),
    }
}

fn copy_neighbor_leaves(l: &NeighborLeaves) -> (r: NeighborLeaves)
    ensures
        r == *l,
{
    NeighborLeaves {
        chassis_id: crate::text::copy_text(&l.chassis_id),
        chassis_id_type: crate::text::copy_text(&l.chassis_id_type),
        port_id: crate::text::copy_text(&l.port_id),
        port_id_type: crate::text::copy_text(&l.port_id_type),
        port_description: crate::text::copy_text(&l.port_description),
        system_name: crate::text::copy_text(&l.system_name),
        system_description: crate::text::copy_text(&l.system_description),
        management_address: crate::text::copy_text(&l.management_address),
    }
}

/// Where `name` is among sorted interface entries: `(true, i)` at index `i`, or `(false, p)`
/// with `p` the position that keeps the order.
fn find_interface(entries: &Vec<InterfaceEntry>, name: &str) -> (r: (bool, usize))
    requires
        interfaces_sorted(entries@),
    ensures
        r.0 ==> r.1 < entries@.len() && if_index_of(if_views(entries@), name@, 0) == Some(r.1 as int),
        !r.0 ==> if_index_of(if_views(entries@), name@, 0) is None && r.1 == if_insert_pos(
            if_views(entries@),
            name@,
            0,
        ) && r.1 <= entries@.len(),
{
    let ghost v = if_views(entries@);
    let mut i: usize = 0;
    while i < entries.len()
        invariant
            i <= entries@.len(),
            v == if_views(entries@),
            interfaces_sorted(entries@),
            if_index_of(v, name@, 0) == if_index_of(v, name@, i as int),
            if_insert_pos(v, name@, 0) == if_insert_pos(v, name@, i as int),
        decreases entries.len() - i,
    {
        assert(v[i as int].0 == entries@[i as int].name@);
        if str_eq(entries[i].name.as_str(), name) {
            return (true, i);
        }
        if text_less(name, entries[i].name.as_str()) {
            proof {
                assert forall|j: int| i < j < v.len() implies v[j].0 != name@ by {
                    assert(text_lt(entries@[i as int].name@, entries@[j].name@));
                    lemma_text_lt_transitive(name@, entries@[i as int].name@, entries@[j].name@);
                    lemma_text_lt_irreflexive(name@);
                }
                lemma_if_absent_after(v, name@, i as int + 1);
            }
            return (false, i);
        }
        i = i + 1;
    }
    (false, i)
}

proof fn lemma_if_absent_after(v: Seq<(Seq<char>, InterfaceLeaves)>, k: Seq<char>, i: int)
    requires
        0 <= i,
        forall|j: int| i <= j < v.len() ==> v[j].0 != k,
    ensures
        if_index_of(v, k, i) is None,
    decreases v.len() - i,
{
    if i < v.len() {
        lemma_if_absent_after(v, k, i + 1);
    }
}

proof fn lemma_if_insert_pos_bounds(v: Seq<(Seq<char>, InterfaceLeaves)>, k: Seq<char>, i: int)
    requires
        0 <= i <= v.len(),
    ensures
        i <= if_insert_pos(v, k, i) <= v.len(),
        forall|j: int| i <= j < if_insert_pos(v, k, i) ==> !text_lt(k, #[trigger] v[j].0),
        if_insert_pos(v, k, i) < v.len() ==> text_lt(k, v[if_insert_pos(v, k, i)].0),
    decreases v.len() - i,
{
    if i < v.len() && !text_lt(k, v[i].0) {
        lemma_if_insert_pos_bounds(v, k, i + 1);
    }
}

proof fn lemma_if_index_found(v: Seq<(Seq<char>, InterfaceLeaves)>, k: Seq<char>, i: int)
    requires
        0 <= i,
    ensures
        if_index_of(v, k, i) matches Some(j) ==> i <= j < v.len() && v[j].0 == k,
        if_index_of(v, k, i) is None ==> forall|j: int| i <= j < v.len() ==> v[j].0 != k,
    decreases v.len() - i,
{
    if i < v.len() && v[i].0 != k {
        lemma_if_index_found(v, k, i + 1);
    }
}

/// The entry for `name`, added with empty leaves in key order when absent; its index.
fn interface_slot(entries: &mut Vec<InterfaceEntry>, name: &str) -> (idx: usize)
    requires
        interfaces_sorted(old(entries)@),
    ensures
        interfaces_sorted(final(entries)@),
        idx < final(entries)@.len(),
        final(entries)@[idx as int].name@ == name@,
        idx == (match if_index_of(if_views(old(entries)@), name@, 0) {
            Some(i) => i,
            None => if_insert_pos(if_views(old(entries)@), name@, 0),
        }),
        if_views(final(entries)@) == if_upsert(if_views(old(entries)@), name@, None, arbitrary()),
{
    let ghost v = if_views(entries@);
    let (found, i) = find_interface(entries, name);
    if found {
        proof {
            lemma_if_index_found(v, name@, 0);
            assert(if_views(entries@) =~= v.update(i as int, (name@, v[i as int].1)));
        }
        return i;
    }
    proof {
        lemma_if_insert_pos_bounds(v, name@, 0);
        lemma_if_index_found(v, name@, 0);
    }
    entries.insert(i, InterfaceEntry { name: name.to_owned(), leaves: InterfaceLeaves::empty() });
    proof {
        let e = entries@;
        assert(if_views(e) =~= v.insert(i as int, (name@, empty_interface_leaves())));
        assert forall|a: int, b: int| 0 <= a < b < e.len() implies text_lt(#[trigger] e[a].name@, #[trigger] e[b].name@) by {
            let o = old(entries)@;
            if a < i && b < i {
                assert(e[a] == o[a] && e[b] == o[b]);
            } else if a < i && b == i {
                assert(e[a] == o[a]);
                assert(v[a].0 != name@);
                assert(!text_lt(name@, v[a].0));
                lemma_text_lt_total(v[a].0, name@);
            } else if a < i && b > i {
                assert(e[a] == o[a] && e[b] == o[b - 1]);
            } else if a == i {
                assert(e[b] == o[b - 1]);
                assert(text_lt(name@, v[i as int].0));
                if b - 1 > i {
                    assert(text_lt(o[i as int].name@, o[b - 1].name@));
                    lemma_text_lt_transitive(name@, o[i as int].name@, o[b - 1].name@);
                }
            } else {
                assert(e[a] == o[a - 1] && e[b] == o[b - 1]);
            }
        }
    }
    i
}

fn replace_interface_leaves(entries: &mut Vec<InterfaceEntry>, idx: usize, leaves: InterfaceLeaves)
    requires
        idx < old(entries)@.len(),
    ensures
        final(entries)@.len() == old(entries)@.len(),
        forall|j: int| 0 <= j < final(entries)@.len() ==> (#[trigger] final(entries)@[j]).name@ == old(entries)@[j].name@,
        if_views(final(entries)@) == if_views(old(entries)@).update(idx as int, (old(entries)@[idx as int].name@, leaves)),
{
    let name = entries[idx].name.clone();
    entries.set(idx, InterfaceEntry { name, leaves });
    assert(if_views(entries@) =~= if_views(old(entries)@).update(idx as int, (old(entries)@[idx as int].name@, leaves)));
}

proof fn lemma_pair_lt_order(a: (Seq<char>, Seq<char>), b: (Seq<char>, Seq<char>), c: (Seq<char>, Seq<char>))
    ensures
        !pair_lt(a, a),
        a == b || pair_lt(a, b) || pair_lt(b, a),
        pair_lt(a, b) && pair_lt(b, c) ==> pair_lt(a, c),
{
    lemma_text_lt_irreflexive(a.0);
    lemma_text_lt_irreflexive(a.1);
    lemma_text_lt_total(a.0, b.0);
    lemma_text_lt_total(a.1, b.1);
    lemma_text_lt_total(b.0, c.0);
    lemma_text_lt_total(a.0, c.0);
    if text_lt(a.0, b.0) && text_lt(b.0, c.0) {
        lemma_text_lt_transitive(a.0, b.0, c.0);
    }
    if text_lt(a.1, b.1) && text_lt(b.1, c.1) {
        lemma_text_lt_transitive(a.1, b.1, c.1);
    }
}

fn pair_less(a0: &str, a1: &str, b0: &str, b1: &str) -> (r: bool)
    ensures
        r == pair_lt((a0@, a1@), (b0@, b1@)),
{
    text_less(a0, b0) || (str_eq(a0, b0) && text_less(a1, b1))
}

fn find_neighbor(entries: &Vec<NeighborEntry>, interface: &str, id: &str) -> (r: (bool, usize))
    requires
        neighbors_sorted(entries@),
    ensures
        r.0 ==> r.1 < entries@.len() && nb_index_of(nb_views(entries@), (interface@, id@), 0) == Some(r.1 as int),
        !r.0 ==> nb_index_of(nb_views(entries@), (interface@, id@), 0) is None && r.1 == nb_insert_pos(
            nb_views(entries@),
            (interface@, id@),
            0,
        ) && r.1 <= entries@.len(),
{
    let ghost v = nb_views(entries@);
    let ghost k = (interface@, id@);
    let mut i: usize = 0;
    while i < entries.len()
        invariant
            i <= entries@.len(),
            v == nb_views(entries@),
            k == (interface@, id@),
            neighbors_sorted(entries@),
            nb_index_of(v, k, 0) == nb_index_of(v, k, i as int),
            nb_insert_pos(v, k, 0) == nb_insert_pos(v, k, i as int),
        decreases entries.len() - i,
    {
        assert(v[i as int].0 == neighbor_key(entries@[i as int]));
        if str_eq(entries[i].interface.as_str(), interface) && str_eq(entries[i].id.as_str(), id) {
            return (true, i);
        }
        if pair_less(interface, id, entries[i].interface.as_str(), entries[i].id.as_str()) {
            proof {
                assert forall|j: int| i < j < v.len() implies v[j].0 != k by {
                    assert(pair_lt(neighbor_key(entries@[i as int]), neighbor_key(entries@[j])));
                    lemma_pair_lt_order(k, neighbor_key(entries@[i as int]), neighbor_key(entries@[j]));
                    lemma_pair_lt_order(k, k, k);
                }
                lemma_nb_absent_after(v, k, i as int + 1);
            }
            return (false, i);
        }
        i = i + 1;
    }
    (false, i)
}

proof fn lemma_nb_absent_after(v: Seq<((Seq<char>, Seq<char>), NeighborLeaves)>, k: (Seq<char>, Seq<char>), i: int)
    requires
        0 <= i,
        forall|j: int| i <= j < v.len() ==> v[j].0 != k,
    ensures
        nb_index_of(v, k, i) is None,
    decreases v.len() - i,
{
    if i < v.len() {
        lemma_nb_absent_after(v, k, i + 1);
    }
}

proof fn lemma_nb_insert_pos_bounds(v: Seq<((Seq<char>, Seq<char>), NeighborLeaves)>, k: (Seq<char>, Seq<char>), i: int)
    requires
        0 <= i <= v.len(),
    ensures
        i <= nb_insert_pos(v, k, i) <= v.len(),
        forall|j: int| i <= j < nb_insert_pos(v, k, i) ==> !pair_lt(k, #[trigger] v[j].0),
        nb_insert_pos(v, k, i) < v.len() ==> pair_lt(k, v[nb_insert_pos(v, k, i)].0),
    decreases v.len() - i,
{
    if i < v.len() && !pair_lt(k, v[i].0) {
        lemma_nb_insert_pos_bounds(v, k, i + 1);
    }
}

proof fn lemma_nb_index_found(v: Seq<((Seq<char>, Seq<char>), NeighborLeaves)>, k: (Seq<char>, Seq<char>), i: int)
    requires
        0 <= i,
    ensures
        nb_index_of(v, k, i) matches Some(j) ==> i <= j < v.len() && v[j].0 == k,
        nb_index_of(v, k, i) is None ==> forall|j: int| i <= j < v.len() ==> v[j].0 != k,
    decreases v.len() - i,
{
    if i < v.len() && v[i].0 != k {
        lemma_nb_index_found(v, k, i + 1);
    }
}

fn neighbor_slot(entries: &mut Vec<NeighborEntry>, interface: &str, id: &str) -> (idx: usize)
    requires
        neighbors_sorted(old(entries)@),
    ensures
        neighbors_sorted(final(entries)@),
        idx < final(entries)@.len(),
        neighbor_key(final(entries)@[idx as int]) == (interface@, id@),
        idx == (match nb_index_of(nb_views(old(entries)@), (interface@, id@), 0) {
            Some(i) => i,
            None => nb_insert_pos(nb_views(old(entries)@), (interface@, id@), 0),
        }),
        nb_views(final(entries)@) == nb_upsert(nb_views(old(entries)@), (interface@, id@), None, arbitrary()),
{
    let ghost v = nb_views(entries@);
    let ghost k = (interface@, id@);
    let (found, i) = find_neighbor(entries, interface, id);
    if found {
        proof {
            lemma_nb_index_found(v, k, 0);
            assert(nb_views(entries@) =~= v.update(i as int, (k, v[i as int].1)));
        }
        return i;
    }
    proof {
        lemma_nb_insert_pos_bounds(v, k, 0);
        lemma_nb_index_found(v, k, 0);
    }
    entries.insert(i, NeighborEntry { interface: interface.to_owned(), id: id.to_owned(), leaves: NeighborLeaves::empty() });
    proof {
        let e = entries@;
        assert(nb_views(e) =~= v.insert(i as int, (k, empty_neighbor_leaves())));
        assert forall|a: int, b: int| 0 <= a < b < e.len() implies pair_lt(neighbor_key(#[trigger] e[a]), neighbor_key(#[trigger] e[b])) by {
            let o = old(entries)@;
            if a < i && b < i {
                assert(e[a] == o[a] && e[b] == o[b]);
            } else if a < i && b == i {
                assert(e[a] == o[a]);
                assert(v[a].0 != k);
                assert(!pair_lt(k, v[a].0));
                lemma_pair_lt_order(v[a].0, k, k);
            } else if a < i && b > i {
                assert(e[a] == o[a] && e[b] == o[b - 1]);
            } else if a == i {
                assert(e[b] == o[b - 1]);
                assert(pair_lt(k, v[i as int].0));
                if b - 1 > i {
                    assert(pair_lt(neighbor_key(o[i as int]), neighbor_key(o[b - 1])));
                    lemma_pair_lt_order(k, neighbor_key(o[i as int]), neighbor_key(o[b - 1]));
                }
            } else {
                assert(e[a] == o[a - 1] && e[b] == o[b - 1]);
            }
        }
    }
    i
}

fn replace_neighbor_leaves(entries: &mut Vec<NeighborEntry>, idx: usize, leaves: NeighborLeaves)
    requires
        idx < old(entries)@.len(),
    ensures
        final(entries)@.len() == old(entries)@.len(),
        forall|j: int| 0 <= j < final(entries)@.len() ==> neighbor_key(#[trigger] final(entries)@[j]) == neighbor_key(old(entries)@[j]),
        nb_views(final(entries)@) == nb_views(old(entries)@).update(idx as int, (neighbor_key(old(entries)@[idx as int]), leaves)),
{
    let interface = entries[idx].interface.clone();
    let id = entries[idx].id.clone();
    entries.set(idx, NeighborEntry { interface, id, leaves });
    assert(nb_views(entries@) =~= nb_views(old(entries)@).update(idx as int, (neighbor_key(old(entries)@[idx as int]), leaves)));
}

// ---------------------------------------------------------------------------------------------
// Routing a leaf
// ---------------------------------------------------------------------------------------------

/// A flattened update: the full path and the leaf's value as text.
#[derive(Debug, Clone)]
pub struct Leaf {
    pub elems: Vec<PathElem>,
    pub value: String,
}

/// An `openconfig-interfaces` leaf an interface row keeps.
#[derive(Debug, Clone, Copy, PartialEq, Eq, Structural)]
pub enum IfField {
    Ifindex,
    IfType,
    Description,
    AdminStatus,
    OperStatus,
    MacAddress,
    PortSpeed,
    NegotiatedPortSpeed,
}

/// An `openconfig-lldp` neighbour leaf.
#[derive(Debug, Clone, Copy, PartialEq, Eq, Structural)]
pub enum NbField {
    ChassisId,
    ChassisIdType,
    PortId,
    PortIdType,
    PortDescription,
    SystemName,
    SystemDescription,
    ManagementAddress,
}

/// The device's own identity leaves.
#[derive(Debug, Clone, Copy, PartialEq, Eq, Structural)]
pub enum LocalField {
    ChassisId,
    ChassisIdType,
}

/// Where a leaf goes.
#[derive(Debug, Clone, PartialEq, Eq)]
pub enum Route {
    /// Nowhere.
    Ignore,
    /// Onto the named interface's row (created if new), into the field if one matched.
    Interface(String, Option<IfField>),
    /// Onto the neighbour (local interface name, neighbour id), likewise.
    Neighbor(String, String, Option<NbField>),
    /// Onto the device's own identity.
    Local(LocalField),
}

pub enum RouteView {
    Ignore,
    Interface(Seq<char>, Option<IfField>),
    Neighbor(Seq<char>, Seq<char>, Option<NbField>),
    Local(LocalField),
}

pub open spec fn route_view(r: Route) -> RouteView {
    match r {
        Route::Ignore => RouteView::Ignore,
        Route::Interface(n, f) => RouteView::Interface(n@, f),
        Route::Neighbor(i, n, f) => RouteView::Neighbor(i@, n@, f),
        Route::Local(f) => RouteView::Local(f),
    }
}

pub open spec fn names_of(elems: Seq<PathElem>) -> Seq<Seq<char>> {
    elems.map_values(|e: PathElem| unqualified_spec(e.name@))
}

pub open spec fn root_view(p: LldpModelProfile) -> Seq<Seq<char>> {
    p.root@.map_values(|r: &'static str| r@)
}

/// The path element names to match on, with the profile's model folded onto the openconfig
/// shape it mirrors: only for paths that are that model's LLDP tree (the profile's root, then
/// `lldp`), the root is stripped and the model's state container read as `state`.
pub open spec fn normalised_spec(p: LldpModelProfile, elems: Seq<PathElem>) -> Seq<Seq<char>> {
    let names = names_of(elems);
    let root = root_view(p);
    if names.len() > root.len() && names.subrange(0, root.len() as int) == root && names[root.len() as int]
        == "lldp"@ {
        names.skip(root.len() as int).map_values(
            |n: Seq<char>| if n == p.state_container@ {
                "state"@
            } else {
                n
            },
        )
    } else {
        names
    }
}

/// The first element from `i` on whose unqualified name is `name`.
pub open spec fn first_named(elems: Seq<PathElem>, name: Seq<char>, i: int) -> Option<int>
    decreases elems.len() - i,
{
    if i < 0 || i >= elems.len() {
        None
    } else if unqualified_spec(elems[i].name@) == name {
        Some(i)
    } else {
        first_named(elems, name, i + 1)
    }
}

/// The value of list key `key`, from entry `i` on.
pub open spec fn key_value(keys: Seq<(String, String)>, key: Seq<char>, i: int) -> Option<Seq<char>>
    decreases keys.len() - i,
{
    if i < 0 || i >= keys.len() {
        None
    } else if keys[i].0@ == key {
        Some(keys[i].1@)
    } else {
        key_value(keys, key, i + 1)
    }
}

/// The list key `key` of the first element named `elem`.
pub open spec fn key_of_spec(elems: Seq<PathElem>, elem: Seq<char>, key: Seq<char>) -> Option<Seq<char>> {
    match first_named(elems, elem, 0) {
        Some(i) => key_value(elems[i].key@, key, 0),
        None => None,
    }
}

pub open spec fn if_field_of(containers: Seq<Seq<char>>, leaf: Seq<char>) -> Option<IfField> {
    let state = containers.len() >= 1 && containers.last() == "state"@;
    let ethernet = state && containers.len() >= 2 && containers[containers.len() - 2] == "ethernet"@;
    if state && leaf == "ifindex"@ {
        Some(IfField::Ifindex)
    } else if state && leaf == "type"@ {
        Some(IfField::IfType)
    } else if state && leaf == "description"@ {
        Some(IfField::Description)
    } else if state && leaf == "admin-status"@ {
        Some(IfField::AdminStatus)
    } else if state && leaf == "oper-status"@ {
        Some(IfField::OperStatus)
    } else if ethernet && leaf == "mac-address"@ {
        Some(IfField::MacAddress)
    } else if ethernet && leaf == "port-speed"@ {
        Some(IfField::PortSpeed)
    } else if ethernet && leaf == "negotiated-port-speed"@ {
        Some(IfField::NegotiatedPortSpeed)
    } else {
        None
    }
}

pub open spec fn nb_field_of(leaf: Seq<char>) -> Option<NbField> {
    if leaf == "chassis-id"@ {
        Some(NbField::ChassisId)
    } else if leaf == "chassis-id-type"@ {
        Some(NbField::ChassisIdType)
    } else if leaf == "port-id"@ {
        Some(NbField::PortId)
    } else if leaf == "port-id-type"@ {
        Some(NbField::PortIdType)
    } else if leaf == "port-description"@ {
        Some(NbField::PortDescription)
    } else if leaf == "system-name"@ {
        Some(NbField::SystemName)
    } else if leaf == "system-description"@ {
        Some(NbField::SystemDescription)
    } else if leaf == "management-address"@ {
        Some(NbField::ManagementAddress)
    } else {
        None
    }
}

/// Where a leaf goes: under `interfaces` (and not a subinterface), onto the interface named
/// by the `interface` key; under `lldp`, onto the neighbour keyed by the `interface` and
/// `neighbor` keys, or, with neither key, onto the device's own chassis identity.
pub open spec fn route_spec(p: LldpModelProfile, leaf: Leaf) -> RouteView {
    let names = normalised_spec(p, leaf.elems@);
    if names.len() == 0 {
        RouteView::Ignore
    } else {
        let leaf_name = names.last();
        let containers = names.drop_last();
        if containers.len() > 0 && containers[0] == "interfaces"@ {
            if containers.contains("subinterface"@) {
                RouteView::Ignore
            } else {
                match key_of_spec(leaf.elems@, "interface"@, "name"@) {
                    Some(name) => RouteView::Interface(name, if_field_of(containers, leaf_name)),
                    None => RouteView::Ignore,
                }
            }
        } else if containers.len() > 0 && containers[0] == "lldp"@ {
            match (key_of_spec(leaf.elems@, "interface"@, "name"@), key_of_spec(leaf.elems@, "neighbor"@, "id"@)) {
                (Some(i), Some(n)) => RouteView::Neighbor(i, n, nb_field_of(leaf_name)),
                (None, None) => if leaf_name == "chassis-id"@ {
                    RouteView::Local(LocalField::ChassisId)
                } else if leaf_name == "chassis-id-type"@ {
                    RouteView::Local(LocalField::ChassisIdType)
                } else {
                    RouteView::Ignore
                },
                _ => RouteView::Ignore,
            }
        } else {
            RouteView::Ignore
        }
    }
}

/// The leaves after a value is stored into a field: an `ifindex` parsed (absent when not a
/// number), the negotiated speed only where no speed is held, every other field set.
pub open spec fn apply_if_field(l: InterfaceLeaves, f: Option<IfField>, value: String) -> InterfaceLeaves {
    match f {
        None => l,
        Some(IfField::Ifindex) => InterfaceLeaves {
            ifindex: match std_parse_int(value@, false, 0, u64::MAX as int) {
                Some(n) => Some(n as u64),
                None => None,
            },
            ..l
        },
        Some(IfField::IfType) => InterfaceLeaves { if_type: Some(value), ..l },
        Some(IfField::Description) => InterfaceLeaves { description: Some(value), ..l },
        Some(IfField::AdminStatus) => InterfaceLeaves { admin_status: Some(value), ..l },
        Some(IfField::OperStatus) => InterfaceLeaves { oper_status: Some(value), ..l },
        Some(IfField::MacAddress) => InterfaceLeaves { mac_address: Some(value), ..l },
        Some(IfField::PortSpeed) => InterfaceLeaves { port_speed: Some(value), ..l },
        Some(IfField::NegotiatedPortSpeed) => if l.port_speed is None {
            InterfaceLeaves { port_speed: Some(value), ..l }
        } else {
            l
        },
    }
}

pub open spec fn apply_nb_field(l: NeighborLeaves, f: Option<NbField>, value: String) -> NeighborLeaves {
    match f {
        None => l,
        Some(NbField::ChassisId) => NeighborLeaves { chassis_id: Some(value), ..l },
        Some(NbField::ChassisIdType) => NeighborLeaves { chassis_id_type: Some(value), ..l },
        Some(NbField::PortId) => NeighborLeaves { port_id: Some(value), ..l },
        Some(NbField::PortIdType) => NeighborLeaves { port_id_type: Some(value), ..l },
        Some(NbField::PortDescription) => NeighborLeaves { port_description: Some(value), ..l },
        Some(NbField::SystemName) => NeighborLeaves { system_name: Some(value), ..l },
        Some(NbField::SystemDescription) => NeighborLeaves { system_description: Some(value), ..l },
        Some(NbField::ManagementAddress) => NeighborLeaves { management_address: Some(value), ..l },
    }
}

fn set_if_field(l: &InterfaceLeaves, f: Option<IfField>, value: &String) -> (r: InterfaceLeaves)
    ensures
        r == apply_if_field(*l, f, *value),
{
    let mut r = copy_interface_leaves(l);
    match f {
        None => {},
        Some(IfField::Ifindex) => {
            r.ifindex = parse_u64(value.as_str());
        },
        Some(IfField::IfType) => r.if_type = Some(value.clone()),
        Some(IfField::Description) => r.description = Some(value.clone()),
        Some(IfField::AdminStatus) => r.admin_status = Some(value.clone()),
        Some(IfField::OperStatus) => r.oper_status = Some(value.clone()),
        Some(IfField::MacAddress) => r.mac_address = Some(value.clone()),
        Some(IfField::PortSpeed) => r.port_speed = Some(value.clone()),
        Some(IfField::NegotiatedPortSpeed) => {
            if r.port_speed.is_none() {
                r.port_speed = Some(value.clone());
            }
        },
    }
    r
}

fn set_nb_field(l: &NeighborLeaves, f: Option<NbField>, value: &String) -> (r: NeighborLeaves)
    ensures
        r == apply_nb_field(*l, f, *value),
{
    let mut r = copy_neighbor_leaves(l);
    match f {
        None => {},
        Some(NbField::ChassisId) => r.chassis_id = Some(value.clone()),
        Some(NbField::ChassisIdType) => r.chassis_id_type = Some(value.clone()),
        Some(NbField::PortId) => r.port_id = Some(value.clone()),
        Some(NbField::PortIdType) => r.port_id_type = Some(value.clone()),
        Some(NbField::PortDescription) => r.port_description = Some(value.clone()),
        Some(NbField::SystemName) => r.system_name = Some(value.clone()),
        Some(NbField::SystemDescription) => r.system_description = Some(value.clone()),
        Some(NbField::ManagementAddress) => r.management_address = Some(value.clone()),
    }
    r
}

pub open spec fn texts_view(v: Seq<String>) -> Seq<Seq<char>> {
    v.map_values(|t: String| t@)
}

/// The path element names to match on; see [`normalised_spec`].
pub fn normalised_names(profile: &LldpModelProfile, leaf: &Leaf) -> (r: Vec<String>)
    ensures
        texts_view(r@) == normalised_spec(*profile, leaf.elems@),
{
    let mut names: Vec<String> = Vec::new();
    let mut i: usize = 0;
    while i < leaf.elems.len()
        invariant
            i <= leaf.elems@.len(),
            names@.len() == i,
            texts_view(names@) == names_of(leaf.elems@).subrange(0, i as int),
        decreases leaf.elems.len() - i,
    {
        let u = unqualified(leaf.elems[i].name.as_str());
        let ghost before = names@;
        names.push(u);
        assert(names@[i as int]@ == names_of(leaf.elems@)[i as int]);
        assert forall|x: int| 0 <= x <= i implies #[trigger] texts_view(names@)[x] == names_of(leaf.elems@).subrange(0, i + 1)[x] by {
            if x < i {
                assert(names@[x] == before[x]);
                assert(texts_view(before)[x] == names_of(leaf.elems@).subrange(0, i as int)[x]);
            }
        }
        i = i + 1;
        assert(texts_view(names@) =~= names_of(leaf.elems@).subrange(0, i as int));
    }
    assert(names_of(leaf.elems@).subrange(0, leaf.elems@.len() as int) =~= names_of(leaf.elems@));
    let ghost all = names_of(leaf.elems@);
    let root_len = profile.root.len();
    assert(root_view(*profile).len() == root_len);
    if names.len() <= root_len {
        return names;
    }
    let mut k: usize = 0;
    while k < root_len
        invariant
            k <= root_len == profile.root@.len() < names@.len(),
            root_view(*profile).len() == root_len,
            all == names_of(leaf.elems@),
            texts_view(names@) == all,
            forall|j: int| 0 <= j < k ==> all[j] == (#[trigger] profile.root@[j])@,
        decreases root_len - k,
    {
        if !str_eq(names[k].as_str(), profile.root[k]) {
            assert(all.subrange(0, root_len as int)[k as int] != root_view(*profile)[k as int]);
            assert(all.subrange(0, root_len as int) != root_view(*profile));
            assert(normalised_spec(*profile, leaf.elems@) == all);
            return names;
        }
        k = k + 1;
    }
    assert(all.subrange(0, root_len as int) =~= root_view(*profile));
    if !str_eq(names[root_len].as_str(), "lldp") {
        return names;
    }
    let mut out: Vec<String> = Vec::new();
    let mut j: usize = root_len;
    while j < names.len()
        invariant
            root_len <= j <= names@.len(),
            out@.len() == j - root_len,
            all == names_of(leaf.elems@),
            texts_view(names@) == all,
            texts_view(out@) == all.skip(root_len as int).map_values(
                |n: Seq<char>| if n == profile.state_container@ {
                    "state"@
                } else {
                    n
                },
            ).subrange(0, j - root_len),
        decreases names.len() - j,
    {
        let ghost before = out@;
        let ghost target = all.skip(root_len as int).map_values(
            |n: Seq<char>| if n == profile.state_container@ {
                "state"@
            } else {
                n
            },
        );
        assert(all[j as int] == names@[j as int]@);
        if str_eq(names[j].as_str(), profile.state_container) {
            out.push("state".to_owned());
        } else {
            out.push(names[j].clone());
        }
        assert(out@[j - root_len]@ == target[j - root_len]);
        assert forall|x: int| 0 <= x <= j - root_len implies #[trigger] texts_view(out@)[x] == target.subrange(0, j + 1 - root_len)[x] by {
            if x < j - root_len {
                assert(out@[x] == before[x]);
                assert(texts_view(before)[x] == target.subrange(0, j - root_len)[x]);
            }
        }
        j = j + 1;
        assert(texts_view(out@) =~= all.skip(root_len as int).map_values(
            |n: Seq<char>| if n == profile.state_container@ {
                "state"@
            } else {
                n
            },
        ).subrange(0, j - root_len));
    }
    assert(all.skip(root_len as int).map_values(
        |n: Seq<char>| if n == profile.state_container@ {
            "state"@
        } else {
            n
        },
    ).subrange(0, names@.len() - root_len) =~= all.skip(root_len as int).map_values(
        |n: Seq<char>| if n == profile.state_container@ {
            "state"@
        } else {
            n
        },
    ));
    out
}

/// The list key `key` of the first element named `elem`.
pub fn key_of(elems: &Vec<PathElem>, elem: &str, key: &str) -> (r: Option<String>)
    ensures
        crate::lldp::opt_text(r) == key_of_spec(elems@, elem@, key@),
{
    let mut i: usize = 0;
    while i < elems.len()
        invariant
            i <= elems@.len(),
            first_named(elems@, elem@, 0) == first_named(elems@, elem@, i as int),
        decreases elems.len() - i,
    {
        let u = unqualified(elems[i].name.as_str());
        if str_eq(u.as_str(), elem) {
            assert(first_named(elems@, elem@, i as int) == Some(i as int));
            let keys = &elems[i].key;
            let mut k: usize = 0;
            while k < keys.len()
                invariant
                    k <= keys@.len(),
                    i < elems@.len(),
                    first_named(elems@, elem@, 0) == Some(i as int),
                    keys@ == elems@[i as int].key@,
                    key_value(keys@, key@, 0) == key_value(keys@, key@, k as int),
                decreases keys.len() - k,
            {
                if str_eq(keys[k].0.as_str(), key) {
                    assert(key_value(keys@, key@, k as int) == Some(keys@[k as int].1@));
                    return Some(keys[k].1.clone());
                }
                k = k + 1;
            }
            return None;
        }
        i = i + 1;
    }
    None
}

fn contains_text(v: &Vec<String>, hi: usize, t: &str) -> (r: bool)
    requires
        hi <= v@.len(),
    ensures
        r == texts_view(v@).subrange(0, hi as int).contains(t@),
{
    let mut i: usize = 0;
    while i < hi
        invariant
            i <= hi <= v@.len(),
            forall|j: int| 0 <= j < i ==> v@[j]@ != t@,
        decreases hi - i,
    {
        if str_eq(v[i].as_str(), t) {
            assert(texts_view(v@).subrange(0, hi as int)[i as int] == t@);
            return true;
        }
        i = i + 1;
    }
    proof {
        if texts_view(v@).subrange(0, hi as int).contains(t@) {
            let j = choose|j: int| 0 <= j < hi && texts_view(v@).subrange(0, hi as int)[j] == t@;
            assert(v@[j]@ == t@);
        }
    }
    false
}

fn interface_field(names: &Vec<String>, n: usize) -> (r: Option<IfField>)
    requires
        1 <= n <= names@.len(),
    ensures
        r == if_field_of(texts_view(names@).subrange(0, n - 1), names@[n - 1]@),
{
    let ghost containers = texts_view(names@).subrange(0, n - 1);
    let leaf = names[n - 1].as_str();
    let state = n >= 2 && str_eq(names[n - 2].as_str(), "state");
    let ethernet = state && n >= 3 && str_eq(names[n - 3].as_str(), "ethernet");
    assert(state == (containers.len() >= 1 && containers.last() == "state"@));
    assert(ethernet == (state && containers.len() >= 2 && containers[containers.len() - 2] == "ethernet"@));
    if state && str_eq(leaf, "ifindex") {
        Some(IfField::Ifindex)
    } else if state && str_eq(leaf, "type") {
        Some(IfField::IfType)
    } else if state && str_eq(leaf, "description") {
        Some(IfField::Description)
    } else if state && str_eq(leaf, "admin-status") {
        Some(IfField::AdminStatus)
    } else if state && str_eq(leaf, "oper-status") {
        Some(IfField::OperStatus)
    } else if ethernet && str_eq(leaf, "mac-address") {
        Some(IfField::MacAddress)
    } else if ethernet && str_eq(leaf, "port-speed") {
        Some(IfField::PortSpeed)
    } else if ethernet && str_eq(leaf, "negotiated-port-speed") {
        Some(IfField::NegotiatedPortSpeed)
    } else {
        None
    }
}

fn neighbor_field(leaf: &str) -> (r: Option<NbField>)
    ensures
        r == nb_field_of(leaf@),
{
    if str_eq(leaf, "chassis-id") {
        Some(NbField::ChassisId)
    } else if str_eq(leaf, "chassis-id-type") {
        Some(NbField::ChassisIdType)
    } else if str_eq(leaf, "port-id") {
        Some(NbField::PortId)
    } else if str_eq(leaf, "port-id-type") {
        Some(NbField::PortIdType)
    } else if str_eq(leaf, "port-description") {
        Some(NbField::PortDescription)
    } else if str_eq(leaf, "system-name") {
        Some(NbField::SystemName)
    } else if str_eq(leaf, "system-description") {
        Some(NbField::SystemDescription)
    } else if str_eq(leaf, "management-address") {
        Some(NbField::ManagementAddress)
    } else {
        None
    }
}

/// Where a leaf goes; see [`route_spec`].
pub fn route_of(profile: &LldpModelProfile, leaf: &Leaf) -> (r: Route)
    ensures
        route_view(r) == route_spec(*profile, *leaf),
{
    let names = normalised_names(profile, leaf);
    let n = names.len();
    if n == 0 {
        return Route::Ignore;
    }
    let ghost all = texts_view(names@);
    let ghost containers = all.drop_last();
    assert(containers =~= all.subrange(0, n - 1));
    assert(all.last() == names@[n - 1]@);
    let leaf_name = names[n - 1].as_str();
    if n >= 2 && str_eq(names[0].as_str(), "interfaces") {
        if contains_text(&names, n - 1, "subinterface") {
            return Route::Ignore;
        }
        match key_of(&leaf.elems, "interface", "name") {
            Some(name) => Route::Interface(name, interface_field(&names, n)),
            None => Route::Ignore,
        }
    } else if n >= 2 && str_eq(names[0].as_str(), "lldp") {
        let interface = key_of(&leaf.elems, "interface", "name");
        let neighbor = key_of(&leaf.elems, "neighbor", "id");
        match (interface, neighbor) {
            (Some(i), Some(nb)) => Route::Neighbor(i, nb, neighbor_field(leaf_name)),
            (None, None) => if str_eq(leaf_name, "chassis-id") {
                Route::Local(LocalField::ChassisId)
            } else if str_eq(leaf_name, "chassis-id-type") {
                Route::Local(LocalField::ChassisIdType)
            } else {
                Route::Ignore
            },
            _ => Route::Ignore,
        }
    } else {
        Route::Ignore
    }
}

/// What a collection holds, by key: interface leaves by name, neighbour leaves by (interface,
/// id), and the device's own chassis identity and its type.
pub type CollState = (
    Seq<(Seq<char>, InterfaceLeaves)>,
    Seq<((Seq<char>, Seq<char>), NeighborLeaves)>,
    Option<String>,
    Option<String>,
);

pub open spec fn coll_state(c: Collection) -> CollState {
    (if_views(c.interfaces@), nb_views(c.neighbors@), c.local_chassis_id, c.local_chassis_id_type)
}

/// The state after one leaf is folded in where [`route_spec`] sends it.
pub open spec fn absorbed(c: CollState, p: LldpModelProfile, leaf: Leaf) -> CollState {
    match route_spec(p, leaf) {
        RouteView::Ignore => c,
        RouteView::Interface(name, f) => (if_upsert(c.0, name, f, leaf.value), c.1, c.2, c.3),
        RouteView::Neighbor(i, n, f) => (c.0, nb_upsert(c.1, (i, n), f, leaf.value), c.2, c.3),
        RouteView::Local(LocalField::ChassisId) => (c.0, c.1, Some(leaf.value), c.3),
        RouteView::Local(LocalField::ChassisIdType) => (c.0, c.1, c.2, Some(leaf.value)),
    }
}

/// The state after each of `ls` is folded in, in order.
pub open spec fn absorb_all(c: CollState, p: LldpModelProfile, ls: Seq<Leaf>) -> CollState
    decreases ls.len(),
{
    if ls.len() == 0 {
        c
    } else {
        absorbed(absorb_all(c, p, ls.drop_last()), p, ls.last())
    }
}

/// Fold one leaf into the collection, where [`route_of`] sends it: a field of an interface
/// row or a neighbour (the entry added in key order if new), or the device's own identity.
pub fn absorb_leaf(coll: &mut Collection, profile: &LldpModelProfile, leaf: &Leaf)
    requires
        old(coll).wf(),
    ensures
        final(coll).wf(),
        final(coll).lldp_model == old(coll).lldp_model,
        coll_state(*final(coll)) == absorbed(coll_state(*old(coll)), *profile, *leaf),
{
    match route_of(profile, leaf) {
        Route::Ignore => {},
        Route::Interface(name, f) => {
            let ghost v = if_views(coll.interfaces@);
            let idx = interface_slot(&mut coll.interfaces, name.as_str());
            let current = copy_interface_leaves(&coll.interfaces[idx].leaves);
            let updated = set_if_field(&current, f, &leaf.value);
            let ghost mid = coll.interfaces@;
            replace_interface_leaves(&mut coll.interfaces, idx, updated);
            proof {
                assert forall|a: int, b: int| 0 <= a < b < coll.interfaces@.len() implies text_lt(
                    #[trigger] coll.interfaces@[a].name@,
                    #[trigger] coll.interfaces@[b].name@,
                ) by {
                    assert(coll.interfaces@[a].name@ == mid[a].name@);
                    assert(coll.interfaces@[b].name@ == mid[b].name@);
                }
                assert(if_views(mid)[idx as int].1 == mid[idx as int].leaves);
                match if_index_of(v, name@, 0) {
                    Some(i) => {
                        lemma_if_index_found(v, name@, 0);
                        assert(if_views(mid) == v.update(i, (name@, apply_if_field(v[i].1, None, arbitrary()))));
                        assert(idx == i);
                        assert(if_views(mid)[i] == (name@, v[i].1));
                        assert(current == v[i].1);
                        assert(if_views(coll.interfaces@) =~= if_upsert(v, name@, f, leaf.value));
                    },
                    None => {
                        let p = if_insert_pos(v, name@, 0);
                        lemma_if_insert_pos_bounds(v, name@, 0);
                        assert(idx == p);
                        assert(if_views(mid) == v.insert(p, (name@, apply_if_field(empty_interface_leaves(), None, arbitrary()))));
                        assert(if_views(mid)[p] == (name@, empty_interface_leaves()));
                        assert(current == empty_interface_leaves());
                        assert(if_views(coll.interfaces@) =~= if_upsert(v, name@, f, leaf.value));
                    },
                }
            }
        },
        Route::Neighbor(interface, id, f) => {
            let ghost v = nb_views(coll.neighbors@);
            let idx = neighbor_slot(&mut coll.neighbors, interface.as_str(), id.as_str());
            let current = copy_neighbor_leaves(&coll.neighbors[idx].leaves);
            let updated = set_nb_field(&current, f, &leaf.value);
            let ghost mid = coll.neighbors@;
            replace_neighbor_leaves(&mut coll.neighbors, idx, updated);
            proof {
                assert forall|a: int, b: int| 0 <= a < b < coll.neighbors@.len() implies pair_lt(
                    neighbor_key(#[trigger] coll.neighbors@[a]),
                    neighbor_key(#[trigger] coll.neighbors@[b]),
                ) by {
                    assert(neighbor_key(coll.neighbors@[a]) == neighbor_key(mid[a]));
                    assert(neighbor_key(coll.neighbors@[b]) == neighbor_key(mid[b]));
                }
                let k = (interface@, id@);
                assert(nb_views(mid)[idx as int].1 == mid[idx as int].leaves);
                match nb_index_of(v, k, 0) {
                    Some(i) => {
                        lemma_nb_index_found(v, k, 0);
                        assert(nb_views(mid) == v.update(i, (k, apply_nb_field(v[i].1, None, arbitrary()))));
                        assert(idx == i);
                        assert(nb_views(mid)[i] == (k, v[i].1));
                        assert(current == v[i].1);
                        assert(nb_views(coll.neighbors@) =~= nb_upsert(v, k, f, leaf.value));
                    },
                    None => {
                        let p = nb_insert_pos(v, k, 0);
                        lemma_nb_insert_pos_bounds(v, k, 0);
                        assert(idx == p);
                        assert(nb_views(mid) == v.insert(p, (k, apply_nb_field(empty_neighbor_leaves(), None, arbitrary()))));
                        assert(nb_views(mid)[p] == (k, empty_neighbor_leaves()));
                        assert(current == empty_neighbor_leaves());
                        assert(nb_views(coll.neighbors@) =~= nb_upsert(v, k, f, leaf.value));
                    },
                }
            }
        },
        Route::Local(LocalField::ChassisId) => {
            coll.local_chassis_id = Some(leaf.value.clone());
        },
        Route::Local(LocalField::ChassisIdType) => {
            coll.local_chassis_id_type = Some(leaf.value.clone());
        },
    }
}

// ---------------------------------------------------------------------------------------------
// Interface rows
// ---------------------------------------------------------------------------------------------

/// The neighbour kept for an interface over the first `n` neighbour entries: the first one on
/// that interface, replaced only by one carrying strictly more identifying leaves.
pub open spec fn best_neighbor(v: Seq<((Seq<char>, Seq<char>), NeighborLeaves)>, name: Seq<char>, n: int) -> Option<NeighborLeaves>
    decreases n,
{
    if n <= 0 || n > v.len() {
        None
    } else {
        let prev = best_neighbor(v, name, n - 1);
        let e = v[n - 1];
        if e.0.0 == name {
            match prev {
                None => Some(e.1),
                Some(p) => if evidence_of(e.1) > evidence_of(p) {
                    Some(e.1)
                } else {
                    Some(p)
                },
            }
        } else {
            prev
        }
    }
}

/// The far end's chassis id from a neighbour's leaves: an explicit chassis-id leaf mapped by its
/// type; else the management address; else a MAC-shaped port id.
pub open spec fn neighbor_chassis(n: NeighborLeaves) -> Option<ChassisView> {
    match n.chassis_id {
        Some(id) => chassis_of_type(id@, opt_text(n.chassis_id_type)),
        None => {
            let by_address = match n.management_address {
                Some(a) => match parse_ip_spec(a@) {
                    Some(ip) => Some(ChassisView::NetworkAddress(ip)),
                    None => None,
                },
                None => None,
            };
            if by_address is Some {
                by_address
            } else {
                match n.port_id {
                    Some(p) => match canonical_mac_spec(p@) {
                        Some(m) => Some(ChassisView::MacAddress(m)),
                        None => None,
                    },
                    None => None,
                }
            }
        },
    }
}

/// The far end's port id from a neighbour's leaves, mapped by its type.
pub open spec fn neighbor_port(n: NeighborLeaves) -> Option<PortView> {
    match n.port_id {
        Some(id) => port_of_type(id@, opt_text(n.port_id_type)),
        None => None,
    }
}

/// A MAC address leaf in canonical form, when it parses as one.
pub open spec fn mac_leaf(m: Option<String>) -> Option<Seq<char>> {
    match m {
        Some(t) => match mac_text_value(t@) {
            Some(b) => Some(hex_join(b, ':', HexStyle::Lower)),
            None => None,
        },
        None => None,
    }
}

/// The row an interface's leaves and its kept neighbour amount to.
pub open spec fn row_matches(
    b: InterfaceBase,
    name: Seq<char>,
    l: InterfaceLeaves,
    n: Option<NeighborLeaves>,
    host_id: u128,
    network_id: u128,
) -> bool {
    &&& b.host_id == host_id && b.network_id == network_id
    &&& b.if_index == (match l.ifindex {
        Some(x) => if x <= i32::MAX { Some(x as i32) } else { None },
        None => None,
    })
    &&& opt_text(b.if_descr) == Some(name) && opt_text(b.if_name) == Some(name)
    &&& opt_text(b.if_alias) == (match l.description {
        Some(d) => if d@.len() > 0 { Some(d@) } else { None },
        None => None,
    })
    &&& b.if_type == Some(match l.if_type {
        Some(t) => if_type_of_identity(t@),
        None => 1i32,
    })
    &&& b.speed_bps == (match l.port_speed {
        Some(s) => speed_of_identity(s@),
        None => None,
    })
    &&& b.admin_status == Some(admin_status_of_text(opt_text(l.admin_status)))
    &&& b.oper_status == Some(oper_status_of_text(opt_text(l.oper_status)))
    &&& opt_text(b.mac_address) == mac_leaf(l.mac_address)
    &&& b.ip_address_id is None && b.neighbor is None && b.neighbor_seen_at is None
    &&& chassis_opt(b.lldp_chassis_id) == (match n {
        Some(x) => neighbor_chassis(x),
        None => None,
    })
    &&& port_opt(b.lldp_port_id) == (match n {
        Some(x) => neighbor_port(x),
        None => None,
    })
    &&& opt_text(b.lldp_sys_name) == (match n {
        Some(x) => opt_text(x.system_name),
        None => None,
    })
    &&& opt_text(b.lldp_port_desc) == (match n {
        Some(x) => opt_text(x.port_description),
        None => None,
    })
    &&& b.lldp_mgmt_addr == (match n {
        Some(x) => match x.management_address {
            Some(a) => parse_ip_spec(a@),
            None => None,
        },
        None => None,
    })
    &&& opt_text(b.lldp_sys_desc) == (match n {
        Some(x) => opt_text(x.system_description),
        None => None,
    })
    &&& b.cdp_device_id is None && b.cdp_port_id is None && b.cdp_platform is None
    &&& b.cdp_address is None && b.fdb_macs is None && b.native_vlan_id is None
    &&& b.vlan_ids is None
}

fn kept_neighbor<'a>(neighbors: &'a Vec<NeighborEntry>, name: &str) -> (r: Option<&'a NeighborLeaves>)
    ensures
        match r {
            Some(l) => best_neighbor(nb_views(neighbors@), name@, neighbors@.len() as int) == Some(*l),
            None => best_neighbor(nb_views(neighbors@), name@, neighbors@.len() as int) is None,
        },
{
    let ghost v = nb_views(neighbors@);
    let mut best: Option<&NeighborLeaves> = None;
    let mut i: usize = 0;
    while i < neighbors.len()
        invariant
            i <= neighbors@.len(),
            v == nb_views(neighbors@),
            match best {
                Some(l) => best_neighbor(v, name@, i as int) == Some(*l),
                None => best_neighbor(v, name@, i as int) is None,
            },
        decreases neighbors.len() - i,
    {
        assert(v[i as int] == (neighbor_key(neighbors@[i as int]), neighbors@[i as int].leaves));
        if str_eq(neighbors[i].interface.as_str(), name) {
            let here = &neighbors[i].leaves;
            best = match best {
                None => Some(here),
                Some(p) => if here.evidence() > p.evidence() {
                    Some(here)
                } else {
                    Some(p)
                },
            };
        }
        i = i + 1;
    }
    best
}

fn chassis_of_neighbor(n: &NeighborLeaves) -> (r: Option<LldpChassisId>)
    ensures
        chassis_opt(r) == neighbor_chassis(*n),
{
    match &n.chassis_id {
        Some(id) => {
            let t: Option<&str> = match &n.chassis_id_type {
                Some(x) => Some(x.as_str()),
                None => None,
            };
            map_chassis(id.as_str(), t)
        },
        None => {
            let by_address = match &n.management_address {
                Some(a) => match parse_ip(a.as_str()) {
                    Some(ip) => Some(LldpChassisId::NetworkAddress(ip)),
                    None => None,
                },
                None => None,
            };
            if by_address.is_some() {
                by_address
            } else {
                match &n.port_id {
                    Some(p) => match canonical_mac(p.as_str()) {
                        Some(m) => Some(LldpChassisId::MacAddress(m)),
                        None => None,
                    },
                    None => None,
                }
            }
        },
    }
}

fn port_of_neighbor(n: &NeighborLeaves) -> (r: Option<LldpPortId>)
    ensures
        port_opt(r) == neighbor_port(*n),
{
    match &n.port_id {
        Some(id) => {
            let t: Option<&str> = match &n.port_id_type {
                Some(x) => Some(x.as_str()),
                None => None,
            };
            map_port(id.as_str(), t)
        },
        None => None,
    }
}

fn canonical_mac_leaf(m: &Option<String>) -> (r: Option<String>)
    ensures
        opt_text(r) == mac_leaf(*m),
{
    match m {
        Some(t) => match mac_from_text(t.as_str()) {
            Some(b) => Some(format_mac(&b)),
            None => None,
        },
        None => None,
    }
}

fn row_of(
    name: &String,
    l: &InterfaceLeaves,
    n: Option<&NeighborLeaves>,
    host_id: u128,
    network_id: u128,
) -> (r: InterfaceBase)
    ensures
        row_matches(r, name@, *l, match n {
            Some(x) => Some(*x),
            None => None,
        }, host_id, network_id),
{
    let if_index: Option<i32> = match l.ifindex {
        Some(x) => if x <= 2147483647 {
            Some(x as i32)
        } else {
            None
        },
        None => None,
    };
    let if_alias = match &l.description {
        Some(d) => if d.as_str().is_empty() {
            None
        } else {
            Some(d.clone())
        },
        None => None,
    };
    let if_type = match &l.if_type {
        Some(t) => if_type_from_identity(t.as_str()),
        None => 1,
    };
    let speed = match &l.port_speed {
        Some(s) => speed_from_identity(s.as_str()),
        None => None,
    };
    let admin: Option<&str> = match &l.admin_status {
        Some(x) => Some(x.as_str()),
        None => None,
    };
    let oper: Option<&str> = match &l.oper_status {
        Some(x) => Some(x.as_str()),
        None => None,
    };
    let (chassis, port, sys_name, port_desc, mgmt, sys_desc) = match n {
        Some(x) => (
            chassis_of_neighbor(x),
            port_of_neighbor(x),
            crate::text::copy_text(&x.system_name),
            crate::text::copy_text(&x.port_description),
            match &x.management_address {
                Some(a) => parse_ip(a.as_str()),
                None => None,
            },
            crate::text::copy_text(&x.system_description),
        ),
        None => (None, None, None, None, None, None),
    };
    InterfaceBase {
        host_id,
        network_id,
        if_index,
        if_descr: Some(name.clone()),
        if_name: Some(name.clone()),
        if_alias,
        if_type: Some(if_type),
        speed_bps: speed,
        admin_status: Some(admin_status(admin)),
        oper_status: Some(oper_status(oper)),
        mac_address: canonical_mac_leaf(&l.mac_address),
        ip_address_id: None,
        neighbor: None,
        neighbor_seen_at: None,
        lldp_chassis_id: chassis,
        lldp_port_id: port,
        lldp_sys_name: sys_name,
        lldp_port_desc: port_desc,
        lldp_mgmt_addr: mgmt,
        lldp_sys_desc: sys_desc,
        cdp_device_id: None,
        cdp_port_id: None,
        cdp_platform: None,
        cdp_address: None,
        fdb_macs: None,
        native_vlan_id: None,
        vlan_ids: None,
    }
}

/// A record made at `now`: every time column `now`, never closed, no lineage, no discovery.
pub open spec fn fresh_at(i: Interface, now: i64) -> bool {
    &&& i.created_at == now && i.updated_at == now && i.valid_from == now && i.last_seen_at == now
    &&& i.valid_to is None && i.lineage_id is None
    &&& i.last_discovery_id is None && i.first_discovery_id is None
}

/// The interface rows a collection amounts to, made at `now`: one per interface, in name
/// order, each with a fresh id and the neighbour kept for it folded in. A neighbour on a name
/// no interface carries has no row to live on and is dropped.
pub fn collection_to_interfaces(coll: &Collection, host_id: u128, network_id: u128, now: i64) -> (r: Vec<Interface>)
    ensures
        r@.len() == coll.interfaces@.len(),
        forall|k: int|
            0 <= k < r@.len() ==> row_matches(
                (#[trigger] r@[k]).base,
                coll.interfaces@[k].name@,
                coll.interfaces@[k].leaves,
                best_neighbor(nb_views(coll.neighbors@), coll.interfaces@[k].name@, coll.neighbors@.len() as int),
                host_id,
                network_id,
            ) && fresh_at(r@[k], now),
{
    let mut rows: Vec<Interface> = Vec::new();
    let mut k: usize = 0;
    while k < coll.interfaces.len()
        invariant
            k <= coll.interfaces@.len(),
            rows@.len() == k,
            forall|j: int|
                0 <= j < k ==> row_matches(
                    (#[trigger] rows@[j]).base,
                    coll.interfaces@[j].name@,
                    coll.interfaces@[j].leaves,
                    best_neighbor(nb_views(coll.neighbors@), coll.interfaces@[j].name@, coll.neighbors@.len() as int),
                    host_id,
                    network_id,
                ) && fresh_at(rows@[j], now),
        decreases coll.interfaces.len() - k,
    {
        let entry = &coll.interfaces[k];
        let n = kept_neighbor(&coll.neighbors, entry.name.as_str());
        let base = row_of(&entry.name, &entry.leaves, n, host_id, network_id);
        rows.push(Interface::stamped(base, new_uuid(), now));
        k = k + 1;
    }
    rows
}

// ---------------------------------------------------------------------------------------------
// Notifications and their leaves
// ---------------------------------------------------------------------------------------------

/// A JSON value, as a JSON-encoded update carries it. Numbers are kept as their text.
#[derive(Debug)]
pub enum JsonValue {
    Null,
    Bool(bool),
    Number(String),
    Text(String),
    Array(Vec<JsonValue>),
    /// Members in the order the parser yields them (by key).
    Object(Vec<(String, JsonValue)>),
}

/// A gNMI scalar or JSON-encoded value.
#[derive(Debug, Clone, PartialEq, Eq)]
pub enum TypedValueKind {
    StringVal(String),
    AsciiVal(String),
    IntVal(i64),
    UintVal(u64),
    BoolVal(bool),
    JsonIetfVal(Vec<u8>),
    JsonVal(Vec<u8>),
    /// Any other kind (bytes, floats, decimals, leaf-lists): no leaf text.
    Other,
}

/// An update's value, which may be absent.
#[derive(Debug, Clone, PartialEq, Eq)]
pub struct TypedValue {
    pub value: Option<TypedValueKind>,
}

/// One update: where, and what.
#[derive(Debug, Clone, PartialEq, Eq)]
pub struct Update {
    pub path: Option<Path>,
    pub val: Option<TypedValue>,
}

/// A notification: a prefix every update's path is relative to, and the updates.
#[derive(Debug, Clone, PartialEq, Eq)]
pub struct Notification {
    pub prefix: Option<Path>,
    pub update: Vec<Update>,
}

/// What `serde_json::from_slice::<serde_json::Value>` makes of `bytes`: `None` for bytes that
/// are not one JSON document.
pub uninterp spec fn parsed_json(bytes: Seq<u8>) -> Option<JsonValue>;

#[verifier::external_type_specification]
#[verifier::external_body]
pub struct ExSerdeJsonValue(serde_json::Value);

/// `serde_json::Value` as a [`JsonValue`], variant for variant (a number as its `Display` text).
#[verifier::external_body]
fn json_value_of(v: &serde_json::Value) -> JsonValue {
    match v {
        serde_json::Value::Null => JsonValue::Null,
        serde_json::Value::Bool(b) => JsonValue::Bool(*b),
        serde_json::Value::Number(n) => JsonValue::Number(n.to_string()),
        serde_json::Value::String(s) => JsonValue::Text(s.clone()),
        serde_json::Value::Array(a) => JsonValue::Array(a.iter().map(json_value_of).collect()),
        serde_json::Value::Object(m) => JsonValue::Object(
            m.iter().map(|(k, x)| (k.clone(), json_value_of(x))).collect(),
        ),
    }
}

/// Parse a JSON document with `serde_json::from_slice`; the result is [`parsed_json`] of the
/// bytes. Which bytes parse, and to what, is serde_json's and is not restated here.
#[verifier::external_body]
fn json_from_slice(bytes: &[u8]) -> (r: Option<JsonValue>)
    ensures
        r == parsed_json(bytes@),
{
    match serde_json::from_slice::<serde_json::Value>(bytes) {
        Ok(v) => Some(json_value_of(&v)),
        Err(_) => None,
    }
}

/// A leaf by its path elements and value.
pub type LeafView = (Seq<ElemView>, Seq<char>);

pub open spec fn leaf_view(l: Leaf) -> LeafView {
    (elems_view(l.elems@), l.value@)
}

pub open spec fn leaves_view(ls: Seq<Leaf>) -> Seq<LeafView> {
    ls.map_values(|l: Leaf| leaf_view(l))
}

/// The text of a JSON scalar: a string, a number's text, or `true`/`false`.
pub open spec fn scalar_text(j: JsonValue) -> Option<Seq<char>> {
    match j {
        JsonValue::Text(s) => Some(s@),
        JsonValue::Number(n) => Some(n@),
        JsonValue::Bool(b) => Some(if b { "true"@ } else { "false"@ }),
        _ => None,
    }
}

/// The first member named `key`.
pub open spec fn obj_get(m: Seq<(String, JsonValue)>, key: Seq<char>, i: int) -> Option<JsonValue>
    decreases m.len() - i,
{
    if i < 0 || i >= m.len() {
        None
    } else if m[i].0@ == key {
        Some(m[i].1)
    } else {
        obj_get(m, key, i + 1)
    }
}

/// The keys with `k` set to `v`: replacing its value where present, else added.
pub open spec fn keys_insert(keys: Seq<(Seq<char>, Seq<char>)>, k: Seq<char>, v: Seq<char>) -> Seq<(Seq<char>, Seq<char>)> {
    if exists|i: int| 0 <= i < keys.len() && keys[i].0 == k {
        let i = choose|i: int| 0 <= i < keys.len() && keys[i].0 == k && forall|j: int| 0 <= j < i ==> keys[j].0 != k;
        keys.update(i, (k, v))
    } else {
        keys.push((k, v))
    }
}

/// A list entry's path element: the enclosing list's element, keyed by the entry's `name`
/// member, or failing that its `id` member, when that member is a scalar.
pub open spec fn entry_for(list: ElemView, item: JsonValue) -> ElemView {
    match item {
        JsonValue::Object(m) => {
            let by_name = match obj_get(m@, "name"@, 0) {
                Some(v) => scalar_text(v),
                None => None,
            };
            let by_id = match obj_get(m@, "id"@, 0) {
                Some(v) => scalar_text(v),
                None => None,
            };
            match by_name {
                Some(v) => (list.0, keys_insert(list.1, "name"@, v)),
                None => match by_id {
                    Some(v) => (list.0, keys_insert(list.1, "id"@, v)),
                    None => list,
                },
            }
        },
        _ => list,
    }
}

pub open spec fn json_len(j: JsonValue) -> int {
    match j {
        JsonValue::Object(m) => m@.len() as int,
        JsonValue::Array(a) => a@.len() as int,
        _ => 0,
    }
}

/// The leaves a JSON value rooted at path `e` flattens to: an object's members become path
/// elements (unqualified); a list re-uses its enclosing element for each entry, keyed by the
/// entry; a scalar is one leaf.
pub open spec fn flatten_spec(e: Seq<ElemView>, j: JsonValue) -> Seq<LeafView>
    decreases j, json_len(j) + 1,
{
    match j {
        JsonValue::Object(_) => members_spec(e, j, 0),
        JsonValue::Array(_) => if e.len() == 0 {
            Seq::empty()
        } else {
            items_spec(e.drop_last(), e.last(), j, 0)
        },
        _ => match scalar_text(j) {
            Some(v) => seq![(e, v)],
            None => Seq::empty(),
        },
    }
}

pub open spec fn members_spec(e: Seq<ElemView>, j: JsonValue, i: int) -> Seq<LeafView>
    decreases j, json_len(j) - i,
{
    match j {
        JsonValue::Object(m) => if 0 <= i < m@.len() {
            flatten_spec(e.push((unqualified_spec(m@[i].0@), Seq::empty())), m@[i].1) + members_spec(e, j, i + 1)
        } else {
            Seq::empty()
        },
        _ => Seq::empty(),
    }
}

pub open spec fn items_spec(e: Seq<ElemView>, list: ElemView, j: JsonValue, i: int) -> Seq<LeafView>
    decreases j, json_len(j) - i,
{
    match j {
        JsonValue::Array(a) => if 0 <= i < a@.len() {
            flatten_spec(e.push(entry_for(list, a@[i])), a@[i]) + items_spec(e, list, j, i + 1)
        } else {
            Seq::empty()
        },
        _ => Seq::empty(),
    }
}

/// The text of a typed scalar as its `Display` writes it: strings as they are, integers in
/// decimal, booleans as `true`/`false`. The other kinds carry no leaf text.
pub open spec fn typed_scalar_text(v: TypedValueKind) -> Option<Seq<char>> {
    match v {
        TypedValueKind::StringVal(s) => Some(s@),
        TypedValueKind::AsciiVal(s) => Some(s@),
        TypedValueKind::IntVal(i) => Some(signed_decimal_text(i as int)),
        TypedValueKind::UintVal(u) => Some(decimal_text(u as nat)),
        TypedValueKind::BoolVal(b) => Some(if b { "true"@ } else { "false"@ }),
        _ => None,
    }
}

/// A typed scalar's leaf text; `None` for JSON blobs and the kinds with no leaf text.
pub fn scalar_to_string(v: &TypedValueKind) -> (r: Option<String>)
    ensures
        opt_text(r) == typed_scalar_text(*v),
{
    match v {
        TypedValueKind::StringVal(s) => Some(s.clone()),
        TypedValueKind::AsciiVal(s) => Some(s.clone()),
        TypedValueKind::IntVal(i) => {
            let d = i64_text(*i);
            Some(string_of(d.as_slice()))
        },
        TypedValueKind::UintVal(u) => {
            let d = u64_text(*u);
            Some(string_of(d.as_slice()))
        },
        TypedValueKind::BoolVal(b) => if *b {
            Some("true".to_owned())
        } else {
            Some("false".to_owned())
        },
        _ => None,
    }
}

/// A JSON scalar's leaf text; `None` for `null`, arrays and objects.
fn json_scalar(j: &JsonValue) -> (r: Option<String>)
    ensures
        opt_text(r) == scalar_text(*j),
{
    match j {
        JsonValue::Text(s) => Some(s.clone()),
        JsonValue::Number(n) => Some(n.clone()),
        JsonValue::Bool(b) => if *b {
            Some("true".to_owned())
        } else {
            Some("false".to_owned())
        },
        _ => None,
    }
}

/// The scalar text of an object's member `key`, when it has one and it is a scalar.
fn member_scalar(m: &Vec<(String, JsonValue)>, key: &str) -> (r: Option<String>)
    ensures
        opt_text(r) == match obj_get(m@, key@, 0) {
            Some(v) => scalar_text(v),
            None => None,
        },
{
    let mut i: usize = 0;
    while i < m.len()
        invariant
            i <= m@.len(),
            obj_get(m@, key@, 0) == obj_get(m@, key@, i as int),
        decreases m.len() - i,
    {
        if str_eq(m[i].0.as_str(), key) {
            return json_scalar(&m[i].1);
        }
        i = i + 1;
    }
    None
}

/// Sets list key `k` to `v`: in place where the key is present, else added at the end.
fn insert_key(keys: &mut Vec<(String, String)>, k: &str, v: String)
    ensures
        keys_view(final(keys)@) == keys_insert(keys_view(old(keys)@), k@, v@),
{
    let ghost kv = keys_view(keys@);
    let mut i: usize = 0;
    while i < keys.len()
        invariant
            i <= keys@.len(),
            keys@ == old(keys)@,
            kv == keys_view(keys@),
            forall|j: int| 0 <= j < i ==> (#[trigger] kv[j]).0 != k@,
        decreases keys.len() - i,
    {
        if str_eq(keys[i].0.as_str(), k) {
            proof {
                assert(kv[i as int].0 == k@);
                let c = choose|c: int|
                    0 <= c < kv.len() && kv[c].0 == k@ && forall|j: int| 0 <= j < c ==> kv[j].0 != k@;
                assert(0 <= i < kv.len() && kv[i as int].0 == k@ && forall|j: int| 0 <= j < i ==> kv[j].0 != k@);
                if c < i {
                    assert(kv[c].0 != k@);
                }
                if c > i {
                    assert(kv[i as int].0 != k@);
                }
                assert(c == i);
            }
            keys.set(i, (k.to_owned(), v));
            assert(keys_view(keys@) =~= keys_insert(kv, k@, v@));
            return;
        }
        i = i + 1;
    }
    keys.push((k.to_owned(), v));
    assert(keys_view(keys@) =~= keys_insert(kv, k@, v@));
}

fn copy_keys(k: &Vec<(String, String)>) -> (r: Vec<(String, String)>)
    ensures
        r@ == k@,
{
    let mut out: Vec<(String, String)> = Vec::new();
    let mut i: usize = 0;
    while i < k.len()
        invariant
            i <= k@.len(),
            out@ == k@.subrange(0, i as int),
        decreases k.len() - i,
    {
        out.push((k[i].0.clone(), k[i].1.clone()));
        assert(out@ =~= k@.subrange(0, i + 1));
        i = i + 1;
    }
    assert(out@ =~= k@);
    out
}

fn copy_elem(e: &PathElem) -> (r: PathElem)
    ensures
        elem_view(r) == elem_view(*e),
{
    PathElem { name: e.name.clone(), key: copy_keys(&e.key) }
}

/// Appends a copy of each element of `more`.
fn extend_elems(out: &mut Vec<PathElem>, more: &[PathElem])
    ensures
        elems_view(final(out)@) == elems_view(old(out)@) + elems_view(more@),
{
    let mut i: usize = 0;
    while i < more.len()
        invariant
            i <= more@.len(),
            elems_view(out@) == elems_view(old(out)@) + elems_view(more@.subrange(0, i as int)),
        decreases more.len() - i,
    {
        let ghost before = out@;
        out.push(copy_elem(&more[i]));
        assert(elems_view(out@) =~= elems_view(before).push(elem_view(more@[i as int])));
        assert(elems_view(more@.subrange(0, i + 1)) =~= elems_view(more@.subrange(0, i as int)).push(
            elem_view(more@[i as int]),
        ));
        i = i + 1;
    }
    assert(more@.subrange(0, more@.len() as int) =~= more@);
}

/// A list entry's path element: the list's element, keyed by the entry (see [`entry_for`]).
fn entry_elem(list: &PathElem, item: &JsonValue) -> (r: PathElem)
    ensures
        elem_view(r) == entry_for(elem_view(*list), *item),
{
    let mut entry = copy_elem(list);
    match item {
        JsonValue::Object(m) => {
            match member_scalar(m, "name") {
                Some(v) => {
                    insert_key(&mut entry.key, "name", v);
                },
                None => match member_scalar(m, "id") {
                    Some(v) => {
                        insert_key(&mut entry.key, "id", v);
                    },
                    None => {},
                },
            }
        },
        _ => {},
    }
    entry
}

/// Flattens a JSON value rooted at path `elems` onto `out` (see [`flatten_spec`]); `elems` is
/// given back as it came.
fn flatten_json(elems: &mut Vec<PathElem>, json: &JsonValue, out: &mut Vec<Leaf>)
    ensures
        elems_view(final(elems)@) == elems_view(old(elems)@),
        leaves_view(final(out)@) == leaves_view(old(out)@) + flatten_spec(elems_view(old(elems)@), *json),
    decreases json,
{
    let ghost e = elems_view(elems@);
    let ghost out0 = leaves_view(out@);
    match json {
        JsonValue::Object(m) => {
            let mut i: usize = 0;
            while i < m.len()
                invariant
                    i <= m@.len(),
                    *json == JsonValue::Object(*m),
                    elems_view(elems@) == e,
                    leaves_view(out@) + members_spec(e, *json, i as int) == out0 + flatten_spec(e, *json),
                decreases m.len() - i,
            {
                let ghost before = leaves_view(out@);
                let name = unqualified(m[i].0.as_str());
                let ghost ev = elems@;
                elems.push(PathElem { name, key: Vec::new() });
                let ghost pushed = (unqualified_spec(m@[i as int].0@), Seq::<(Seq<char>, Seq<char>)>::empty());
                assert(keys_view(Seq::<(String, String)>::empty()) =~= Seq::<(Seq<char>, Seq<char>)>::empty());
                assert(elems_view(elems@) =~= e.push(pushed));
                assert(decreases_to!(*json => m@[i as int].1));
                flatten_json(elems, &m[i].1, out);
                let ghost inner = elems@;
                elems.pop();
                assert(elems_view(elems@) =~= elems_view(inner).drop_last());
                assert(elems_view(elems@) =~= e);
                let ghost f = flatten_spec(e.push(pushed), m@[i as int].1);
                assert(members_spec(e, *json, i as int) == f + members_spec(e, *json, i + 1));
                assert(leaves_view(out@) == before + f);
                assert((before + f) + members_spec(e, *json, i + 1) =~= before + (f + members_spec(e, *json, i + 1)));
                i = i + 1;
            }
            assert(members_spec(e, *json, i as int) =~= Seq::<LeafView>::empty());
            assert(leaves_view(out@) + Seq::<LeafView>::empty() =~= leaves_view(out@));
        },
        JsonValue::Array(a) => {
            if elems.len() == 0 {
                assert(out0 + flatten_spec(e, *json) =~= out0);
                return;
            }
            let list = elems.pop().unwrap();
            let ghost base = elems_view(elems@);
            let ghost lv = elem_view(list);
            assert(base =~= e.drop_last());
            let mut i: usize = 0;
            while i < a.len()
                invariant
                    i <= a@.len(),
                    *json == JsonValue::Array(*a),
                    e.len() > 0,
                    base == e.drop_last(),
                    lv == e.last(),
                    elem_view(list) == lv,
                    elems_view(elems@) == base,
                    leaves_view(out@) + items_spec(base, lv, *json, i as int) == out0 + flatten_spec(e, *json),
                decreases a.len() - i,
            {
                let ghost before = leaves_view(out@);
                let entry = entry_elem(&list, &a[i]);
                let ghost ev = elem_view(entry);
                elems.push(entry);
                assert(elems_view(elems@) =~= base.push(ev));
                assert(decreases_to!(*json => a@[i as int]));
                flatten_json(elems, &a[i], out);
                let ghost inner = elems@;
                elems.pop();
                assert(elems_view(elems@) =~= elems_view(inner).drop_last());
                assert(elems_view(elems@) =~= base);
                let ghost f = flatten_spec(base.push(ev), a@[i as int]);
                assert(items_spec(base, lv, *json, i as int) == f + items_spec(base, lv, *json, i + 1));
                assert(leaves_view(out@) == before + f);
                assert((before + f) + items_spec(base, lv, *json, i + 1) =~= before + (f + items_spec(base, lv, *json, i + 1)));
                i = i + 1;
            }
            assert(items_spec(base, lv, *json, i as int) =~= Seq::<LeafView>::empty());
            assert(leaves_view(out@) + Seq::<LeafView>::empty() =~= leaves_view(out@));
            let ghost popped = elems@;
            elems.push(list);
            assert(elems_view(elems@) =~= elems_view(popped).push(lv));
            assert(elems_view(elems@) =~= e);
        },
        _ => {
            match json_scalar(json) {
                Some(v) => {
                    let mut es: Vec<PathElem> = Vec::new();
                    extend_elems(&mut es, elems.as_slice());
                    assert(elems_view(Seq::<PathElem>::empty()) =~= Seq::<ElemView>::empty());
                    assert(elems_view(es@) =~= e);
                    let ghost before = out@;
                    out.push(Leaf { elems: es, value: v });
                    assert(leaves_view(out@) =~= leaves_view(before).push((e, v@)));
                    assert(leaves_view(out@) =~= out0 + flatten_spec(e, *json));
                },
                None => {
                    assert(out0 + flatten_spec(e, *json) =~= out0);
                },
            }
        },
    }
}

/// The leaves a JSON value rooted at path `elems` flattens to (see [`flatten_spec`]): an
/// object's members become path elements, a list's entries are keyed by their `name` or `id`
/// member, and each scalar is one leaf.
pub fn flatten_json_value(elems: &[PathElem], json: &JsonValue) -> (r: Vec<Leaf>)
    ensures
        leaves_view(r@) == flatten_spec(elems_view(elems@), *json),
{
    let mut path: Vec<PathElem> = Vec::new();
    extend_elems(&mut path, elems);
    assert(elems_view(Seq::<PathElem>::empty()) =~= Seq::<ElemView>::empty());
    assert(elems_view(path@) =~= elems_view(elems@));
    let mut out: Vec<Leaf> = Vec::new();
    assert(leaves_view(out@) =~= Seq::<LeafView>::empty());
    flatten_json(&mut path, json, &mut out);
    assert(leaves_view(out@) =~= flatten_spec(elems_view(elems@), *json));
    out
}

/// Whether an update's value, if it is a JSON blob, parses.
pub open spec fn update_parses(val: TypedValue) -> bool {
    match val.value {
        Some(TypedValueKind::JsonIetfVal(b)) => parsed_json(b@) is Some,
        Some(TypedValueKind::JsonVal(b)) => parsed_json(b@) is Some,
        _ => true,
    }
}

/// The leaves one update's value flattens to at path `e`: a JSON blob's leaves (none when it
/// does not parse), or the one typed leaf.
pub open spec fn update_leaves(e: Seq<ElemView>, val: TypedValue) -> Seq<LeafView> {
    match val.value {
        None => Seq::empty(),
        Some(TypedValueKind::JsonIetfVal(b)) => match parsed_json(b@) {
            Some(j) => flatten_spec(e, j),
            None => Seq::empty(),
        },
        Some(TypedValueKind::JsonVal(b)) => match parsed_json(b@) {
            Some(j) => flatten_spec(e, j),
            None => Seq::empty(),
        },
        Some(k) => match typed_scalar_text(k) {
            Some(v) => seq![(e, v)],
            None => Seq::empty(),
        },
    }
}

/// Flattens one update to leaves at `prefix` then `path`, and says whether its value, if a
/// JSON blob, parsed.
pub fn flatten_update(prefix: &[PathElem], path: &[PathElem], val: &TypedValue) -> (r: (Vec<Leaf>, bool))
    ensures
        leaves_view(r.0@) == update_leaves(elems_view(prefix@) + elems_view(path@), *val),
        r.1 == update_parses(*val),
{
    let mut elems: Vec<PathElem> = Vec::new();
    extend_elems(&mut elems, prefix);
    extend_elems(&mut elems, path);
    assert(elems_view(Seq::<PathElem>::empty()) =~= Seq::<ElemView>::empty());
    let ghost e = elems_view(prefix@) + elems_view(path@);
    assert(elems_view(elems@) =~= e);
    let mut out: Vec<Leaf> = Vec::new();
    assert(leaves_view(out@) =~= Seq::<LeafView>::empty());
    match &val.value {
        None => (out, true),
        Some(TypedValueKind::JsonIetfVal(bytes)) => match json_from_slice(bytes.as_slice()) {
            Some(json) => (flatten_json_value(elems.as_slice(), &json), true),
            None => (out, false),
        },
        Some(TypedValueKind::JsonVal(bytes)) => match json_from_slice(bytes.as_slice()) {
            Some(json) => (flatten_json_value(elems.as_slice(), &json), true),
            None => (out, false),
        },
        Some(other) => {
            match scalar_to_string(other) {
                Some(value) => {
                    out.push(Leaf { elems, value });
                    assert(leaves_view(out@) =~= seq![(e, value@)]);
                },
                None => {},
            }
            (out, true)
        },
    }
}

/// A path's elements by view; no path is the empty one.
pub open spec fn path_view(p: Option<Path>) -> Seq<ElemView> {
    match p {
        Some(p) => elems_view(p.elem@),
        None => Seq::empty(),
    }
}

/// The leaves of the first `k` updates, each at the prefix then its own path; an update
/// without a value gives none.
pub open spec fn updates_leaves(prefix: Seq<ElemView>, us: Seq<Update>, k: int) -> Seq<LeafView>
    decreases k,
{
    if k <= 0 {
        Seq::empty()
    } else {
        updates_leaves(prefix, us, k - 1) + match us[k - 1].val {
            Some(v) => update_leaves(prefix + path_view(us[k - 1].path), v),
            None => Seq::empty(),
        }
    }
}

/// The leaves a notification flattens to, update by update.
pub open spec fn notification_leaves(n: Notification) -> Seq<LeafView> {
    updates_leaves(path_view(n.prefix), n.update@, n.update@.len() as int)
}

/// Whether an update's value, if it has one, parses.
pub open spec fn value_parses(u: Update) -> bool {
    match u.val {
        Some(v) => update_parses(v),
        None => true,
    }
}

/// Whether every JSON blob a notification carries parses.
pub open spec fn notification_parses(n: Notification) -> bool {
    forall|i: int| 0 <= i < n.update@.len() ==> #[trigger] value_parses(n.update@[i])
}

/// The leaves of a notification, and whether every JSON blob in it parsed.
pub fn flatten_notification(n: &Notification) -> (r: (Vec<Leaf>, bool))
    ensures
        leaves_view(r.0@) == notification_leaves(*n),
        r.1 == notification_parses(*n),
{
    let empty: Vec<PathElem> = Vec::new();
    let prefix: &[PathElem] = match &n.prefix {
        Some(p) => p.elem.as_slice(),
        None => empty.as_slice(),
    };
    assert(elems_view(prefix@) =~= path_view(n.prefix));
    let mut out: Vec<Leaf> = Vec::new();
    let mut ok = true;
    let mut k: usize = 0;
    assert(leaves_view(out@) =~= Seq::<LeafView>::empty());
    while k < n.update.len()
        invariant
            k <= n.update@.len(),
            elems_view(prefix@) == path_view(n.prefix),
            leaves_view(out@) == updates_leaves(path_view(n.prefix), n.update@, k as int),
            empty@ == Seq::<PathElem>::empty(),
            ok == forall|i: int| 0 <= i < k ==> #[trigger] value_parses(n.update@[i]),
        decreases n.update.len() - k,
    {
        let u = &n.update[k];
        let ghost before = leaves_view(out@);
        match &u.val {
            Some(val) => {
                let path: &[PathElem] = match &u.path {
                    Some(p) => p.elem.as_slice(),
                    None => empty.as_slice(),
                };
                assert(elems_view(Seq::<PathElem>::empty()) =~= Seq::<ElemView>::empty());
                assert(elems_view(path@) =~= path_view(u.path));
                let (mut ls, good) = flatten_update(prefix, path, val);
                let ghost added = leaves_view(ls@);
                out.append(&mut ls);
                assert(leaves_view(out@) =~= before + added);
                assert(value_parses(n.update@[k as int]) == good);
                ok = ok && good;
            },
            None => {
                assert(leaves_view(out@) =~= before + Seq::<LeafView>::empty());
                assert(value_parses(n.update@[k as int]));
            },
        }
        assert((forall|i: int| 0 <= i < k + 1 ==> #[trigger] value_parses(n.update@[i])) == ((forall|i: int|
            0 <= i < k ==> #[trigger] value_parses(n.update@[i])) && value_parses(n.update@[k as int])));
        k = k + 1;
    }
    (out, ok)
}

/// What a profile folds a path by: the root it strips and its name for the `state` container.
pub open spec fn profile_fold(p: LldpModelProfile) -> (Seq<Seq<char>>, Seq<char>) {
    (root_view(p), p.state_container@)
}

/// The fold of the profile a collection of `model` is read with: DriveNets' native tree for
/// `dn-lldp`, openconfig's (nothing to fold) otherwise.
pub open spec fn model_fold(model: LldpModel) -> (Seq<Seq<char>>, Seq<char>) {
    match model {
        LldpModel::Advertised(m) => if m@ == "dn-lldp"@ {
            (seq!["drivenets-top"@, "protocols"@], "oper-items"@)
        } else {
            (Seq::empty(), "state"@)
        },
        LldpModel::NoneAdvertised => (Seq::empty(), "state"@),
    }
}

/// The profile a collection of `model` was read with: the advertised one, openconfig when
/// none was.
pub fn profile_for(model: LldpModel) -> (p: LldpModelProfile)
    ensures
        profile_fold(p) == model_fold(model),
        match model {
            LldpModel::Advertised(m) => m@ == "dn-lldp"@ ==> p.module@ == "dn-lldp"@,
            LldpModel::NoneAdvertised => p.module@ == "openconfig-lldp"@,
        },
{
    let p = match model {
        LldpModel::Advertised(m) => if str_eq(m, "dn-lldp") {
            dn_lldp()
        } else {
            openconfig_lldp()
        },
        LldpModel::NoneAdvertised => openconfig_lldp(),
    };
    assert(root_view(p) =~= model_fold(model).0);
    p
}

/// Folds one notification's updates into the collection, leaf by leaf and in order, with the
/// profile the collection's model is read with. Answers whether every JSON blob parsed: an
/// update that does not parse contributes nothing and makes the answer `false`, so a garbled
/// subtree counts as a failed read rather than an empty one.
pub fn absorb_notification(coll: &mut Collection, n: &Notification) -> (ok: bool)
    requires
        old(coll).wf(),
    ensures
        final(coll).wf(),
        final(coll).lldp_model == old(coll).lldp_model,
        ok == notification_parses(*n),
        exists|p: LldpModelProfile, ls: Seq<Leaf>|
            profile_fold(p) == model_fold(old(coll).lldp_model) && #[trigger] leaves_view(ls)
                == notification_leaves(*n) && coll_state(*final(coll)) == #[trigger] absorb_all(
                coll_state(*old(coll)),
                p,
                ls,
            ),
{
    let profile = profile_for(coll.lldp_model);
    let (leaves, ok) = flatten_notification(n);
    let mut k: usize = 0;
    assert(leaves@.take(0) =~= Seq::<Leaf>::empty());
    while k < leaves.len()
        invariant
            k <= leaves@.len(),
            coll.wf(),
            coll.lldp_model == old(coll).lldp_model,
            coll_state(*coll) == absorb_all(coll_state(*old(coll)), profile, leaves@.take(k as int)),
        decreases leaves.len() - k,
    {
        absorb_leaf(coll, &profile, &leaves[k]);
        assert(leaves@.take(k + 1).drop_last() =~= leaves@.take(k as int));
        k = k + 1;
    }
    assert(leaves@.take(leaves@.len() as int) =~= leaves@);
    assert(leaves_view(leaves@) == notification_leaves(*n));
    ok
}

/// openconfig is the identity: a profile with nothing to strip and `state` already called
/// `state` passes every path's names through untouched.
pub proof fn lemma_openconfig_folds_nothing(p: LldpModelProfile, elems: Seq<PathElem>)
    requires
        profile_fold(p) == model_fold(LldpModel::NoneAdvertised),
    ensures
        normalised_spec(p, elems) == names_of(elems),
{
    let names = names_of(elems);
    assert(root_view(p).len() == 0);
    let folded = names.skip(0).map_values(
        |n: Seq<char>| if n == p.state_container@ {
            "state"@
        } else {
            n
        },
    );
    assert(folded =~= names);
}

// ---------------------------------------------------------------------------------------------
// The integration
// ---------------------------------------------------------------------------------------------

/// The gNMI collector: a device's interfaces and LLDP neighbours, read over Subscribe ONCE.
pub struct GnmiIntegration;

/// What one collection contributes to its host: the interface rows, the device's own chassis
/// identity where it served one, whether the rows are the device's full account (they are:
/// `/interfaces` answered, or the collection would have failed), and which neighbour groups
/// were read in full.
pub struct GnmiContribution {
    pub interfaces: Vec<Interface>,
    pub chassis_id: Option<String>,
    pub authoritative: bool,
    pub complete: InterfaceDataComplete,
}

/// The device's own chassis identity as a collection served it, in identifier form.
pub open spec fn local_chassis_text(coll: Collection) -> Option<Seq<char>> {
    match coll.local_chassis_id {
        Some(id) => match chassis_of_type(id@, opt_text(coll.local_chassis_id_type)) {
            Some(c) => Some(chassis_identifier_text(c)),
            None => None,
        },
        None => None,
    }
}

impl GnmiIntegration {
    /// Roughly how long a collection takes, in seconds.
    pub fn estimated_seconds(&self) -> (r: u32)
        ensures
            r == 10,
    {
        10
    }

    /// How long a collection may take before it is abandoned, in seconds.
    pub fn timeout_seconds(&self) -> (r: u64)
        ensures
            r == 120,
    {
        120
    }

    /// What a finished collection contributes to host `host_id` on `network_id`.
    pub fn contribution(&self, coll: &Collection, host_id: u128, network_id: u128, now: i64) -> (r:
        GnmiContribution)
        ensures
            r.interfaces@.len() == coll.interfaces@.len(),
            forall|k: int|
                0 <= k < r.interfaces@.len() ==> row_matches(
                    (#[trigger] r.interfaces@[k]).base,
                    coll.interfaces@[k].name@,
                    coll.interfaces@[k].leaves,
                    best_neighbor(nb_views(coll.neighbors@), coll.interfaces@[k].name@, coll.neighbors@.len() as int),
                    host_id,
                    network_id,
                ) && fresh_at(r.interfaces@[k], now),
            opt_text(r.chassis_id) == local_chassis_text(*coll),
            r.authoritative,
            r.complete == (InterfaceDataComplete { lldp: true, cdp: false, fdb: false, vlan_membership: false }),
    {
        let interfaces = collection_to_interfaces(coll, host_id, network_id, now);
        let chassis_id = match &coll.local_chassis_id {
            Some(id) => {
                let id_type: Option<&str> = match &coll.local_chassis_id_type {
                    Some(t) => Some(t.as_str()),
                    None => None,
                };
                match map_chassis(id.as_str(), id_type) {
                    Some(c) => Some(c.identifier()),
                    None => None,
                }
            },
            None => None,
        };
        GnmiContribution {
            interfaces,
            chassis_id,
            authoritative: true,
            complete: InterfaceDataComplete { lldp: true, cdp: false, fdb: false, vlan_membership: false },
        }
    }
}

} // verus!
