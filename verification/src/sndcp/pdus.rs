//! SN-PDUs in decoded form.

use crate::ipv4::Ipv4Addr;
use vstd::prelude::*;

verus! {

/// Why an activation is refused.
#[derive(Debug, Clone, Copy, PartialEq, Eq, Structural)]
pub enum RejectCause {
    PdpContextAlreadyActive,
    RequestedStaticIpv4NotAvailable,
    NoResource,
}

/// Why a request to transmit is refused.
#[derive(Debug, Clone, Copy, PartialEq, Eq, Structural)]
pub enum TransmitResponseRejectCause {
    UnknownNsapi,
    SndcpServiceTemporarilyNotAvailable,
}

/// Type of the address in an activation accept.
#[derive(Debug, Clone, Copy, PartialEq, Eq, Structural)]
pub enum Tia {
    Ipv4Static,
    Ipv4Dynamic,
}

/// Protocol that a configuration entry belongs to.
#[derive(Debug, Clone, Copy, PartialEq, Eq, Structural)]
pub enum ProtocolIdentity {
    Chap,
    Other(u16),
}

/// One entry of the protocol configuration options.
#[derive(Debug)]
pub struct PcoEntry {
    pub protocol_identity: ProtocolIdentity,
    pub contents: Vec<u8>,
}

/// What a [`PcoEntry`] holds.
#[verifier::ext_equal]
pub struct PcoEntryView {
    pub protocol_identity: ProtocolIdentity,
    pub contents: Seq<u8>,
}

impl View for PcoEntry {
    type V = PcoEntryView;

    open spec fn view(&self) -> PcoEntryView {
        PcoEntryView { protocol_identity: self.protocol_identity, contents: self.contents@ }
    }
}

/// Protocol configuration options of an activation demand.
#[derive(Debug)]
pub struct Pco {
    pub entries: Vec<PcoEntry>,
}

impl View for Pco {
    type V = Seq<PcoEntryView>;

    open spec fn view(&self) -> Seq<PcoEntryView> {
        Seq::new(self.entries@.len(), |i: int| self.entries@[i]@)
    }
}

/// SN-ACTIVATE PDP CONTEXT DEMAND.
#[derive(Debug)]
pub struct ActivatePdpContextDemand {
    pub nsapi: u8,
    /// Address type in the demand: 0 asks for the given static address, any other
    /// value for a dynamic one.
    pub atid: u8,
    pub ip_address: Option<Ipv4Addr>,
    pub pco: Option<Pco>,
}

/// What an [`ActivatePdpContextDemand`] holds.
#[verifier::ext_equal]
pub struct DemandView {
    pub nsapi: u8,
    pub atid: u8,
    pub ip_address: Option<Ipv4Addr>,
    pub pco: Option<Seq<PcoEntryView>>,
}

impl View for ActivatePdpContextDemand {
    type V = DemandView;

    open spec fn view(&self) -> DemandView {
        DemandView {
            nsapi: self.nsapi,
            atid: self.atid,
            ip_address: self.ip_address,
            pco: match self.pco {
                Some(p) => Some(p@),
                None => None,
            },
        }
    }
}

/// A CHAP packet without data: code, identifier and length.
#[derive(Debug, Clone, Copy, PartialEq, Eq, Structural)]
pub struct ChapPacket {
    pub code: u8,
    pub id: u8,
    pub length: u16,
}

/// SN-ACTIVATE PDP CONTEXT ACCEPT.
#[derive(Debug, Clone, Copy, PartialEq, Eq, Structural)]
pub struct ActivatePdpContextAccept {
    pub nsapi: u8,
    pub pdu_priority_max: u8,
    pub ready_timer: u8,
    pub standby_timer: u8,
    pub response_wait_timer: u8,
    pub tia: Tia,
    pub ip4_address: Option<Ipv4Addr>,
    pub pcomp: u8,
    pub vj_slots: Option<u8>,
    pub mtu: u8,
    pub snei: Option<u16>,
    /// The CHAP packet that the PPP configuration options carry, if there are any.
    pub pco: Option<ChapPacket>,
}

/// An uplink SN-PDU.
#[derive(Debug)]
pub enum SnUplink {
    ActivatePdpContextDemand(ActivatePdpContextDemand),
    DeactivatePdpContextDemand { nsapi: u8 },
    DeactivatePdpContextAccept { nsapi: u8 },
    Unitdata { nsapi: u8, payload: Vec<u8> },
    Data { nsapi: u8, n_pdu: Vec<u8> },
    DataTransmitRequest { nsapi: u8 },
    PageResponse { nsapi: u8 },
    EndOfData { immediate_service_change: bool },
    Reconnect { target: Option<u8> },
    /// An SN-PDU that is not served.
    Other,
    /// The SDU could not be decoded.
    Malformed,
}

/// What an [`SnUplink`] holds.
#[verifier::ext_equal]
pub enum SnUplinkView {
    ActivatePdpContextDemand(DemandView),
    DeactivatePdpContextDemand { nsapi: u8 },
    DeactivatePdpContextAccept { nsapi: u8 },
    Unitdata { nsapi: u8, payload: Seq<u8> },
    Data { nsapi: u8, n_pdu: Seq<u8> },
    DataTransmitRequest { nsapi: u8 },
    PageResponse { nsapi: u8 },
    EndOfData { immediate_service_change: bool },
    Reconnect { target: Option<u8> },
    Other,
    Malformed,
}

impl View for SnUplink {
    type V = SnUplinkView;

    open spec fn view(&self) -> SnUplinkView {
        match *self {
            SnUplink::ActivatePdpContextDemand(d) => SnUplinkView::ActivatePdpContextDemand(d@),
            SnUplink::DeactivatePdpContextDemand { nsapi } =>
                SnUplinkView::DeactivatePdpContextDemand { nsapi },
            SnUplink::DeactivatePdpContextAccept { nsapi } =>
                SnUplinkView::DeactivatePdpContextAccept { nsapi },
            SnUplink::Unitdata { nsapi, payload } => SnUplinkView::Unitdata {
                nsapi,
                payload: payload@,
            },
            SnUplink::Data { nsapi, n_pdu } => SnUplinkView::Data { nsapi, n_pdu: n_pdu@ },
            SnUplink::DataTransmitRequest { nsapi } => SnUplinkView::DataTransmitRequest { nsapi },
            SnUplink::PageResponse { nsapi } => SnUplinkView::PageResponse { nsapi },
            SnUplink::EndOfData { immediate_service_change } => SnUplinkView::EndOfData {
                immediate_service_change,
            },
            SnUplink::Reconnect { target } => SnUplinkView::Reconnect { target },
            SnUplink::Other => SnUplinkView::Other,
            SnUplink::Malformed => SnUplinkView::Malformed,
        }
    }
}

/// A downlink SN-PDU.
#[derive(Debug)]
pub enum SnDownlink {
    ActivatePdpContextAccept(ActivatePdpContextAccept),
    ActivatePdpContextReject { nsapi: u8, reject_cause: RejectCause },
    DeactivatePdpContextAccept { nsapi: u8 },
    /// Without a cause the request is accepted.
    DataTransmitResponse { nsapi: u8, refused: Option<TransmitResponseRejectCause> },
    PageRequest { nsapi: u8 },
    Unitdata { nsapi: u8, pcomp: u8, dcomp: u8, payload: Vec<u8> },
    Data { nsapi: u8, pcomp: u8, dcomp: u8, n_pdu: Vec<u8> },
}

/// What an [`SnDownlink`] holds.
#[verifier::ext_equal]
pub enum SnDownlinkView {
    ActivatePdpContextAccept(ActivatePdpContextAccept),
    ActivatePdpContextReject { nsapi: u8, reject_cause: RejectCause },
    DeactivatePdpContextAccept { nsapi: u8 },
    DataTransmitResponse { nsapi: u8, refused: Option<TransmitResponseRejectCause> },
    PageRequest { nsapi: u8 },
    Unitdata { nsapi: u8, pcomp: u8, dcomp: u8, payload: Seq<u8> },
    Data { nsapi: u8, pcomp: u8, dcomp: u8, n_pdu: Seq<u8> },
}

impl View for SnDownlink {
    type V = SnDownlinkView;

    open spec fn view(&self) -> SnDownlinkView {
        match *self {
            SnDownlink::ActivatePdpContextAccept(a) => SnDownlinkView::ActivatePdpContextAccept(a),
            SnDownlink::ActivatePdpContextReject { nsapi, reject_cause } =>
                SnDownlinkView::ActivatePdpContextReject { nsapi, reject_cause },
            SnDownlink::DeactivatePdpContextAccept { nsapi } =>
                SnDownlinkView::DeactivatePdpContextAccept { nsapi },
            SnDownlink::DataTransmitResponse { nsapi, refused } =>
                SnDownlinkView::DataTransmitResponse { nsapi, refused },
            SnDownlink::PageRequest { nsapi } => SnDownlinkView::PageRequest { nsapi },
            SnDownlink::Unitdata { nsapi, pcomp, dcomp, payload } => SnDownlinkView::Unitdata {
                nsapi,
                pcomp,
                dcomp,
                payload: payload@,
            },
            SnDownlink::Data { nsapi, pcomp, dcomp, n_pdu } => SnDownlinkView::Data {
                nsapi,
                pcomp,
                dcomp,
                n_pdu: n_pdu@,
            },
        }
    }
}

} // verus!
