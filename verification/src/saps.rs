//! Addresses, service primitives and the queue that carries them between the
//! layers of the stack.

use crate::llc::pdus::{
    AlAckAlRnr, AlAckView, AlDisc, AlReconnect, AlSetup, RxPdu, RxPduView, SegmentationError,
};
use crate::sndcp::pdus::{SnDownlink, SnDownlinkView, SnUplink, SnUplinkView};
use vstd::prelude::*;

verus! {

/// Service access point that a message passes through.
#[derive(Debug, Clone, Copy, PartialEq, Eq, Structural)]
pub enum Sap {
    TmaSap,
    TlaSap,
    TlpdSap,
    Control,
}

/// Entity of the protocol stack.
#[derive(Debug, Clone, Copy, PartialEq, Eq, Structural)]
pub enum TetraEntity {
    Umac,
    Llc,
    Mle,
    Sndcp,
    Cmce,
    Mm,
}

/// Kind of short subscriber identity.
#[derive(Debug, Clone, Copy, PartialEq, Eq, Structural)]
pub enum SsiType {
    Issi,
    Gssi,
}

/// Address of a subscriber or a group.
#[derive(Debug, Clone, Copy, PartialEq, Eq, Structural)]
pub struct TetraAddress {
    pub ssi: u32,
    pub ssi_type: SsiType,
}

impl TetraAddress {
    /// An address of the given kind.
    pub fn new(ssi: u32, ssi_type: SsiType) -> (r: TetraAddress)
        ensures
            r == (TetraAddress { ssi, ssi_type }),
    {
        TetraAddress { ssi, ssi_type }
    }

    /// The individual address of a subscriber.
    pub fn issi(ssi: u32) -> (r: TetraAddress)
        ensures
            r == (TetraAddress { ssi, ssi_type: SsiType::Issi }),
    {
        TetraAddress { ssi, ssi_type: SsiType::Issi }
    }
}

/// Transfer service requested of the link layer.
#[derive(Debug, Clone, Copy, PartialEq, Eq, Structural)]
pub enum Layer2Service {
    Acknowledged,
    Unacknowledged,
}

/// How a channel allocation relates to the current channel.
#[derive(Debug, Clone, Copy, PartialEq, Eq, Structural)]
pub enum ChanAllocType {
    Replace,
    Additional,
    QuitAndGo,
    ReplacePlusCarrier,
}

/// Directions that a channel allocation covers.
#[derive(Debug, Clone, Copy, PartialEq, Eq, Structural)]
pub enum UlDlAssignment {
    Augmented,
    Dl,
    Ul,
    Both,
}

/// A set of timeslots of one carrier.
#[derive(Debug, Clone, Copy, PartialEq, Eq, Structural)]
pub struct TimeslotSet {
    pub ts1: bool,
    pub ts2: bool,
    pub ts3: bool,
    pub ts4: bool,
}

impl TimeslotSet {
    /// True when timeslot `ts` is in the set.
    pub open spec fn has(self, ts: int) -> bool {
        (ts == 1 && self.ts1) || (ts == 2 && self.ts2) || (ts == 3 && self.ts3) || (ts == 4
            && self.ts4)
    }

    /// The set that holds timeslot `ts` alone.
    pub fn only(ts: u8) -> (r: TimeslotSet)
        ensures
            r == TimeslotSet::only_spec(ts),
            forall|k: int| r.has(k) <==> k == ts && 1 <= k <= 4,
    {
        TimeslotSet { ts1: ts == 1, ts2: ts == 2, ts3: ts == 3, ts4: ts == 4 }
    }

    /// See [`TimeslotSet::only`].
    pub open spec fn only_spec(ts: u8) -> TimeslotSet {
        TimeslotSet { ts1: ts == 1, ts2: ts == 2, ts3: ts == 3, ts4: ts == 4 }
    }

    /// The lowest timeslot in the set, if there is one.
    pub open spec fn first_spec(self) -> Option<u8> {
        if self.ts1 {
            Some(1u8)
        } else if self.ts2 {
            Some(2u8)
        } else if self.ts3 {
            Some(3u8)
        } else if self.ts4 {
            Some(4u8)
        } else {
            None
        }
    }

    /// See [`TimeslotSet::first_spec`].
    pub fn first(self) -> (r: Option<u8>)
        ensures
            r == self.first_spec(),
            r matches Some(ts) ==> self.has(ts as int) && forall|k: int|
                1 <= k < ts ==> !self.has(k),
            r is None ==> forall|k: int| !self.has(k),
    {
        if self.ts1 {
            Some(1)
        } else if self.ts2 {
            Some(2)
        } else if self.ts3 {
            Some(3)
        } else if self.ts4 {
            Some(4)
        } else {
            None
        }
    }
}

/// Channel allocation that accompanies a downlink message.
#[derive(Debug, Clone, Copy, PartialEq, Eq, Structural)]
pub struct CmceChanAllocReq {
    pub usage: Option<u8>,
    pub timeslots: TimeslotSet,
    pub alloc_type: ChanAllocType,
    pub ul_dl_assigned: UlDlAssignment,
    pub carrier: Option<u16>,
}

/// Progress of a downlink message, as the MAC and the LLC report it.
#[derive(Debug, Clone, Copy, PartialEq, Eq, Structural)]
pub enum TxState {
    /// Handed down, not on the air yet.
    Pending,
    /// Sent on the air.
    Transmitted,
    /// Dropped by the MAC.
    Discarded,
    /// Confirmed by the peer.
    Acknowledged,
    /// Given up without a confirmation.
    Lost,
}

/// Identifies a reporter. The requesters and the LLC number theirs independently.
#[derive(Debug, Clone, Copy, PartialEq, Eq, Structural)]
pub enum ReporterId {
    /// Numbered by the LLC.
    Llc(u64),
    /// Numbered by the layer above.
    Requester(u64),
}

/// Follows one downlink message through the MAC. The state is the last one reported for
/// the message.
#[derive(Debug, Clone, Copy, PartialEq, Eq, Structural)]
pub struct TxReporter {
    pub id: ReporterId,
    pub state: TxState,
}

impl TxReporter {
    /// A reporter for a message that has just been handed down.
    pub fn new(id: ReporterId) -> (r: TxReporter)
        ensures
            r == TxReporter::pending(id),
    {
        TxReporter { id, state: TxState::Pending }
    }

    /// See [`TxReporter::new`].
    pub open spec fn pending(id: ReporterId) -> TxReporter {
        TxReporter { id, state: TxState::Pending }
    }

    /// The message is on the air.
    pub fn is_transmitted(&self) -> (r: bool)
        ensures
            r == (self.state == TxState::Transmitted),
    {
        self.state == TxState::Transmitted
    }

    /// The MAC dropped the message.
    pub fn is_discarded(&self) -> (r: bool)
        ensures
            r == (self.state == TxState::Discarded),
    {
        self.state == TxState::Discarded
    }
}

/// Transmission options that pass through the LLC unread.
#[derive(Debug, Clone, Copy, PartialEq, Eq, Structural)]
pub struct TxParams {
    pub req_handle: u32,
    pub stealing_permission: bool,
    pub subscriber_class: u8,
    pub air_interface_encryption: Option<u8>,
    pub stealing_repeats_flag: Option<bool>,
    pub data_category: Option<u8>,
    pub chan_alloc: Option<CmceChanAllocReq>,
    pub packet_data_flag: bool,
}

impl TxParams {
    /// The options of a plain signalling message.
    pub open spec fn signalling_spec() -> TxParams {
        TxParams {
            req_handle: 0,
            stealing_permission: false,
            subscriber_class: 0,
            air_interface_encryption: None,
            stealing_repeats_flag: None,
            data_category: None,
            chan_alloc: None,
            packet_data_flag: false,
        }
    }

    /// See [`TxParams::signalling_spec`].
    pub fn signalling() -> (r: TxParams)
        ensures
            r == TxParams::signalling_spec(),
    {
        TxParams {
            req_handle: 0,
            stealing_permission: false,
            subscriber_class: 0,
            air_interface_encryption: None,
            stealing_repeats_flag: None,
            data_category: None,
            chan_alloc: None,
            packet_data_flag: false,
        }
    }
}

/// Channel facts that accompany a received message and pass through unread.
#[derive(Debug, Clone, Copy, PartialEq, Eq, Structural)]
pub struct ChannelInfo {
    pub new_endpoint_id: Option<u32>,
    pub css_endpoint_id: Option<u32>,
    pub scrambling_code: u32,
    pub air_interface_encryption: u8,
    pub chan_change_response_req: bool,
    pub chan_change_handle: Option<u32>,
    pub chan_info: Option<u32>,
}

/// A downlink LLC PDU: its header fields and the bits that follow them. AL-DATA,
/// AL-FINAL, AL-UDATA and AL-UFINAL are held encoded, as the segmenter makes them.
#[derive(Debug)]
pub enum LlcPdu {
    BlAck { has_fcs: bool, nr: u8, body: Vec<bool> },
    BlData { has_fcs: bool, ns: u8, body: Vec<bool> },
    BlAdata { has_fcs: bool, nr: u8, ns: u8, body: Vec<bool> },
    BlUdata { has_fcs: bool, body: Vec<bool> },
    AlSetup(AlSetup),
    AlDisc(AlDisc),
    AlReconnect(AlReconnect),
    AlAck(AlAckAlRnr),
    AlSegment(Vec<bool>),
}

/// What an [`LlcPdu`] holds.
#[verifier::ext_equal]
pub enum LlcPduView {
    BlAck { has_fcs: bool, nr: u8, body: Seq<bool> },
    BlData { has_fcs: bool, ns: u8, body: Seq<bool> },
    BlAdata { has_fcs: bool, nr: u8, ns: u8, body: Seq<bool> },
    BlUdata { has_fcs: bool, body: Seq<bool> },
    AlSetup(AlSetup),
    AlDisc(AlDisc),
    AlReconnect(AlReconnect),
    AlAck(AlAckView),
    AlSegment(Seq<bool>),
}

impl View for LlcPdu {
    type V = LlcPduView;

    open spec fn view(&self) -> LlcPduView {
        match *self {
            LlcPdu::BlAck { has_fcs, nr, body } => LlcPduView::BlAck { has_fcs, nr, body: body@ },
            LlcPdu::BlData { has_fcs, ns, body } => LlcPduView::BlData { has_fcs, ns, body: body@ },
            LlcPdu::BlAdata { has_fcs, nr, ns, body } => LlcPduView::BlAdata {
                has_fcs,
                nr,
                ns,
                body: body@,
            },
            LlcPdu::BlUdata { has_fcs, body } => LlcPduView::BlUdata { has_fcs, body: body@ },
            LlcPdu::AlSetup(p) => LlcPduView::AlSetup(p),
            LlcPdu::AlDisc(p) => LlcPduView::AlDisc(p),
            LlcPdu::AlReconnect(p) => LlcPduView::AlReconnect(p),
            LlcPdu::AlAck(p) => LlcPduView::AlAck(p@),
            LlcPdu::AlSegment(bits) => LlcPduView::AlSegment(bits@),
        }
    }
}

/// A copy of a bit string.
pub fn copy_bits(v: &Vec<bool>) -> (r: Vec<bool>)
    ensures
        r@ == v@,
{
    let r: Vec<bool> = v.clone();
    assert(r@ =~= v@);
    r
}

impl LlcPdu {
    /// A second PDU with the same contents.
    pub fn duplicate(&self) -> (r: LlcPdu)
        ensures
            r@ == self@,
    {
        match self {
            LlcPdu::BlAck { has_fcs, nr, body } => LlcPdu::BlAck {
                has_fcs: *has_fcs,
                nr: *nr,
                body: copy_bits(body),
            },
            LlcPdu::BlData { has_fcs, ns, body } => LlcPdu::BlData {
                has_fcs: *has_fcs,
                ns: *ns,
                body: copy_bits(body),
            },
            LlcPdu::BlAdata { has_fcs, nr, ns, body } => LlcPdu::BlAdata {
                has_fcs: *has_fcs,
                nr: *nr,
                ns: *ns,
                body: copy_bits(body),
            },
            LlcPdu::BlUdata { has_fcs, body } => LlcPdu::BlUdata {
                has_fcs: *has_fcs,
                body: copy_bits(body),
            },
            LlcPdu::AlSetup(p) => LlcPdu::AlSetup(*p),
            LlcPdu::AlDisc(p) => LlcPdu::AlDisc(*p),
            LlcPdu::AlReconnect(p) => LlcPdu::AlReconnect(*p),
            LlcPdu::AlAck(p) => LlcPdu::AlAck(p.duplicate()),
            LlcPdu::AlSegment(bits) => LlcPdu::AlSegment(copy_bits(bits)),
        }
    }
}

/// TMA-UNITDATA request: a PDU that the MAC is to send.
#[derive(Debug)]
pub struct TmaUnitdataReq {
    pub carrier_num: u16,
    pub pdu: LlcPdu,
    pub main_address: TetraAddress,
    pub link_id: u32,
    pub endpoint_id: u32,
    pub params: TxParams,
    pub tx_reporter: Option<TxReporter>,
}

/// What a [`TmaUnitdataReq`] holds.
#[verifier::ext_equal]
pub struct TmaReqView {
    pub carrier_num: u16,
    pub pdu: LlcPduView,
    pub main_address: TetraAddress,
    pub link_id: u32,
    pub endpoint_id: u32,
    pub params: TxParams,
    pub tx_reporter: Option<TxReporter>,
}

impl View for TmaUnitdataReq {
    type V = TmaReqView;

    open spec fn view(&self) -> TmaReqView {
        TmaReqView {
            carrier_num: self.carrier_num,
            pdu: self.pdu@,
            main_address: self.main_address,
            link_id: self.link_id,
            endpoint_id: self.endpoint_id,
            params: self.params,
            tx_reporter: self.tx_reporter,
        }
    }
}

impl TmaUnitdataReq {
    /// A second request with the same contents.
    pub fn duplicate(&self) -> (r: TmaUnitdataReq)
        ensures
            r@ == self@,
    {
        TmaUnitdataReq {
            carrier_num: self.carrier_num,
            pdu: self.pdu.duplicate(),
            main_address: self.main_address,
            link_id: self.link_id,
            endpoint_id: self.endpoint_id,
            params: self.params,
            tx_reporter: self.tx_reporter,
        }
    }
}

/// TMA-UNITDATA indication: a PDU that the MAC has received, decoded.
#[derive(Debug)]
pub struct TmaUnitdataInd {
    pub carrier_num: u16,
    pub pdu: Option<RxPdu>,
    pub main_address: TetraAddress,
    pub link_id: u32,
    pub endpoint_id: u32,
    pub channel: ChannelInfo,
}

/// What a [`TmaUnitdataInd`] holds.
#[verifier::ext_equal]
pub struct TmaIndView {
    pub carrier_num: u16,
    pub pdu: Option<RxPduView>,
    pub main_address: TetraAddress,
    pub link_id: u32,
    pub endpoint_id: u32,
    pub channel: ChannelInfo,
}

impl View for TmaUnitdataInd {
    type V = TmaIndView;

    open spec fn view(&self) -> TmaIndView {
        TmaIndView {
            carrier_num: self.carrier_num,
            pdu: match self.pdu {
                Some(p) => Some(p@),
                None => None,
            },
            main_address: self.main_address,
            link_id: self.link_id,
            endpoint_id: self.endpoint_id,
            channel: self.channel,
        }
    }
}

/// TL-DATA or TL-UNITDATA indication of the basic link.
#[derive(Debug)]
pub struct TlaIndBl {
    pub main_address: TetraAddress,
    pub link_id: u32,
    pub endpoint_id: u32,
    pub channel: ChannelInfo,
    pub tl_sdu: Option<Vec<bool>>,
    pub fcs_flag: bool,
}

/// What a [`TlaIndBl`] holds.
#[verifier::ext_equal]
pub struct TlaIndBlView {
    pub main_address: TetraAddress,
    pub link_id: u32,
    pub endpoint_id: u32,
    pub channel: ChannelInfo,
    pub tl_sdu: Option<Seq<bool>>,
    pub fcs_flag: bool,
}

impl View for TlaIndBl {
    type V = TlaIndBlView;

    open spec fn view(&self) -> TlaIndBlView {
        TlaIndBlView {
            main_address: self.main_address,
            link_id: self.link_id,
            endpoint_id: self.endpoint_id,
            channel: self.channel,
            tl_sdu: match self.tl_sdu {
                Some(v) => Some(v@),
                None => None,
            },
            fcs_flag: self.fcs_flag,
        }
    }
}

/// TL-DATA or TL-UNITDATA indication of the advanced link.
#[derive(Debug)]
pub struct TlaIndAl {
    pub main_address: TetraAddress,
    pub link_id: u32,
    pub endpoint_id: u32,
    pub al_link_number: u8,
    pub tl_sdu: Vec<bool>,
    pub subscriber_class: u8,
    pub fcs_ok: bool,
    pub air_interface_encryption: Option<u8>,
}

/// What a [`TlaIndAl`] holds.
#[verifier::ext_equal]
pub struct TlaIndAlView {
    pub main_address: TetraAddress,
    pub link_id: u32,
    pub endpoint_id: u32,
    pub al_link_number: u8,
    pub tl_sdu: Seq<bool>,
    pub subscriber_class: u8,
    pub fcs_ok: bool,
    pub air_interface_encryption: Option<u8>,
}

impl View for TlaIndAl {
    type V = TlaIndAlView;

    open spec fn view(&self) -> TlaIndAlView {
        TlaIndAlView {
            main_address: self.main_address,
            link_id: self.link_id,
            endpoint_id: self.endpoint_id,
            al_link_number: self.al_link_number,
            tl_sdu: self.tl_sdu@,
            subscriber_class: self.subscriber_class,
            fcs_ok: self.fcs_ok,
            air_interface_encryption: self.air_interface_encryption,
        }
    }
}

/// TL-DATA or TL-UNITDATA request for the basic link.
#[derive(Debug)]
pub struct TlaReqBl {
    pub main_address: TetraAddress,
    pub link_id: u32,
    pub endpoint_id: u32,
    pub params: TxParams,
    pub fcs_flag: bool,
    pub tl_sdu: Vec<bool>,
    /// Number under which the requester follows the message, if it does.
    pub tx_reporter: Option<u64>,
}

/// What a [`TlaReqBl`] holds.
#[verifier::ext_equal]
pub struct TlaReqBlView {
    pub main_address: TetraAddress,
    pub link_id: u32,
    pub endpoint_id: u32,
    pub params: TxParams,
    pub fcs_flag: bool,
    pub tl_sdu: Seq<bool>,
    pub tx_reporter: Option<u64>,
}

impl View for TlaReqBl {
    type V = TlaReqBlView;

    open spec fn view(&self) -> TlaReqBlView {
        TlaReqBlView {
            main_address: self.main_address,
            link_id: self.link_id,
            endpoint_id: self.endpoint_id,
            params: self.params,
            fcs_flag: self.fcs_flag,
            tl_sdu: self.tl_sdu@,
            tx_reporter: self.tx_reporter,
        }
    }
}

/// TL-DATA or TL-UNITDATA request for the advanced link.
#[derive(Debug)]
pub struct TlaReqAl {
    pub main_address: TetraAddress,
    pub link_id: u32,
    pub endpoint_id: u32,
    pub al_link_number: u8,
    pub tl_sdu: Vec<u8>,
    /// The TL-SDU as the segmenter cut it for the link: the encoded PDUs in order.
    pub segments: Result<Vec<Vec<bool>>, SegmentationError>,
}

/// What a [`TlaReqAl`] holds.
#[verifier::ext_equal]
pub struct TlaReqAlView {
    pub main_address: TetraAddress,
    pub link_id: u32,
    pub endpoint_id: u32,
    pub al_link_number: u8,
    pub tl_sdu: Seq<u8>,
    pub segments: Result<Seq<Seq<bool>>, SegmentationError>,
}

/// The outcome of a segmentation by what it holds.
pub open spec fn segments_view(s: Result<Vec<Vec<bool>>, SegmentationError>) -> Result<
    Seq<Seq<bool>>,
    SegmentationError,
> {
    match s {
        Ok(v) => Ok(bit_views(v@)),
        Err(e) => Err(e),
    }
}

/// The bit strings of a list, each by its bits.
pub open spec fn bit_views(s: Seq<Vec<bool>>) -> Seq<Seq<bool>> {
    Seq::new(s.len(), |i: int| s[i]@)
}

impl View for TlaReqAl {
    type V = TlaReqAlView;

    open spec fn view(&self) -> TlaReqAlView {
        TlaReqAlView {
            main_address: self.main_address,
            link_id: self.link_id,
            endpoint_id: self.endpoint_id,
            al_link_number: self.al_link_number,
            tl_sdu: self.tl_sdu@,
            segments: segments_view(self.segments),
        }
    }
}

/// MLE-UNITDATA indication: an uplink SN-PDU, decoded.
#[derive(Debug)]
pub struct LtpdMleUnitdataInd {
    pub received_tetra_address: TetraAddress,
    pub link_id: u32,
    pub endpoint_id: u32,
    /// The advanced link that the PDU came over (N.261), if it came over one.
    pub al_link_number: Option<u8>,
    pub pdu: SnUplink,
}

/// What a [`LtpdMleUnitdataInd`] holds.
#[verifier::ext_equal]
pub struct LtpdIndView {
    pub received_tetra_address: TetraAddress,
    pub link_id: u32,
    pub endpoint_id: u32,
    pub al_link_number: Option<u8>,
    pub pdu: SnUplinkView,
}

impl View for LtpdMleUnitdataInd {
    type V = LtpdIndView;

    open spec fn view(&self) -> LtpdIndView {
        LtpdIndView {
            received_tetra_address: self.received_tetra_address,
            link_id: self.link_id,
            endpoint_id: self.endpoint_id,
            al_link_number: self.al_link_number,
            pdu: self.pdu@,
        }
    }
}

/// MLE-UNITDATA request: a downlink SN-PDU.
#[derive(Debug)]
pub struct LtpdMleUnitdataReq {
    pub main_address: TetraAddress,
    pub link_id: u32,
    pub endpoint_id: u32,
    /// The advanced link to send it over (N.261); over the basic link if there is none.
    pub al_link_number: Option<u8>,
    pub pdu: SnDownlink,
    pub layer2service: Layer2Service,
    pub packet_data_flag: bool,
    /// A channel that the terminal is granted with the PDU.
    pub chan_alloc: Option<CmceChanAllocReq>,
}

/// What a [`LtpdMleUnitdataReq`] holds.
#[verifier::ext_equal]
pub struct LtpdReqView {
    pub main_address: TetraAddress,
    pub link_id: u32,
    pub endpoint_id: u32,
    pub al_link_number: Option<u8>,
    pub pdu: SnDownlinkView,
    pub layer2service: Layer2Service,
    pub packet_data_flag: bool,
    pub chan_alloc: Option<CmceChanAllocReq>,
}

impl View for LtpdMleUnitdataReq {
    type V = LtpdReqView;

    open spec fn view(&self) -> LtpdReqView {
        LtpdReqView {
            main_address: self.main_address,
            link_id: self.link_id,
            endpoint_id: self.endpoint_id,
            al_link_number: self.al_link_number,
            pdu: self.pdu@,
            layer2service: self.layer2service,
            packet_data_flag: self.packet_data_flag,
            chan_alloc: self.chan_alloc,
        }
    }
}

/// The primitive inside a message.
#[derive(Debug)]
pub enum SapMsgInner {
    TmaUnitdataReq(TmaUnitdataReq),
    /// Drop every downlink PDU that is queued for a subscriber.
    TmaPurgeByAddressReq { issi: u32 },
    TmaUnitdataInd(TmaUnitdataInd),
    TmaReportInd,
    TlaTlDataIndBl(TlaIndBl),
    TlaTlUnitdataIndBl(TlaIndBl),
    TlaTlDataIndAl(TlaIndAl),
    TlaTlUnitdataIndAl(TlaIndAl),
    TlaTlDataReqBl(TlaReqBl),
    TlaTlUnitdataReqBl(TlaReqBl),
    TlaTlDataReqAl(TlaReqAl),
    TlaTlUnitdataReqAl(TlaReqAl),
    LtpdMleUnitdataInd(LtpdMleUnitdataInd),
    LtpdMleUnitdataReq(LtpdMleUnitdataReq),
}

/// What a [`SapMsgInner`] holds.
#[verifier::ext_equal]
pub enum SapInnerView {
    TmaUnitdataReq(TmaReqView),
    TmaPurgeByAddressReq { issi: u32 },
    TmaUnitdataInd(TmaIndView),
    TmaReportInd,
    TlaTlDataIndBl(TlaIndBlView),
    TlaTlUnitdataIndBl(TlaIndBlView),
    TlaTlDataIndAl(TlaIndAlView),
    TlaTlUnitdataIndAl(TlaIndAlView),
    TlaTlDataReqBl(TlaReqBlView),
    TlaTlUnitdataReqBl(TlaReqBlView),
    TlaTlDataReqAl(TlaReqAlView),
    TlaTlUnitdataReqAl(TlaReqAlView),
    LtpdMleUnitdataInd(LtpdIndView),
    LtpdMleUnitdataReq(LtpdReqView),
}

impl View for SapMsgInner {
    type V = SapInnerView;

    open spec fn view(&self) -> SapInnerView {
        match *self {
            SapMsgInner::TmaUnitdataReq(p) => SapInnerView::TmaUnitdataReq(p@),
            SapMsgInner::TmaPurgeByAddressReq { issi } => SapInnerView::TmaPurgeByAddressReq {
                issi,
            },
            SapMsgInner::TmaUnitdataInd(p) => SapInnerView::TmaUnitdataInd(p@),
            SapMsgInner::TmaReportInd => SapInnerView::TmaReportInd,
            SapMsgInner::TlaTlDataIndBl(p) => SapInnerView::TlaTlDataIndBl(p@),
            SapMsgInner::TlaTlUnitdataIndBl(p) => SapInnerView::TlaTlUnitdataIndBl(p@),
            SapMsgInner::TlaTlDataIndAl(p) => SapInnerView::TlaTlDataIndAl(p@),
            SapMsgInner::TlaTlUnitdataIndAl(p) => SapInnerView::TlaTlUnitdataIndAl(p@),
            SapMsgInner::TlaTlDataReqBl(p) => SapInnerView::TlaTlDataReqBl(p@),
            SapMsgInner::TlaTlUnitdataReqBl(p) => SapInnerView::TlaTlUnitdataReqBl(p@),
            SapMsgInner::TlaTlDataReqAl(p) => SapInnerView::TlaTlDataReqAl(p@),
            SapMsgInner::TlaTlUnitdataReqAl(p) => SapInnerView::TlaTlUnitdataReqAl(p@),
            SapMsgInner::LtpdMleUnitdataInd(p) => SapInnerView::LtpdMleUnitdataInd(p@),
            SapMsgInner::LtpdMleUnitdataReq(p) => SapInnerView::LtpdMleUnitdataReq(p@),
        }
    }
}

/// A message from one entity to another.
#[derive(Debug)]
pub struct SapMsg {
    pub sap: Sap,
    pub src: TetraEntity,
    pub dest: TetraEntity,
    pub msg: SapMsgInner,
}

/// What a [`SapMsg`] holds.
#[verifier::ext_equal]
pub struct SapMsgView {
    pub sap: Sap,
    pub src: TetraEntity,
    pub dest: TetraEntity,
    pub msg: SapInnerView,
}

impl View for SapMsg {
    type V = SapMsgView;

    open spec fn view(&self) -> SapMsgView {
        SapMsgView { sap: self.sap, src: self.src, dest: self.dest, msg: self.msg@ }
    }
}

/// The LLC hands a PDU to the MAC.
pub open spec fn tma_req_msg(req: TmaReqView) -> SapMsgView {
    SapMsgView {
        sap: Sap::TmaSap,
        src: TetraEntity::Llc,
        dest: TetraEntity::Umac,
        msg: SapInnerView::TmaUnitdataReq(req),
    }
}

/// See [`tma_req_msg`].
pub fn make_tma_req(req: TmaUnitdataReq) -> (r: SapMsg)
    ensures
        r@ == tma_req_msg(req@),
{
    SapMsg {
        sap: Sap::TmaSap,
        src: TetraEntity::Llc,
        dest: TetraEntity::Umac,
        msg: SapMsgInner::TmaUnitdataReq(req),
    }
}

/// The LLC asks the MAC to drop what is queued for a subscriber.
pub open spec fn purge_msg(issi: u32) -> SapMsgView {
    SapMsgView {
        sap: Sap::Control,
        src: TetraEntity::Llc,
        dest: TetraEntity::Umac,
        msg: SapInnerView::TmaPurgeByAddressReq { issi },
    }
}

/// See [`purge_msg`].
pub fn make_purge(issi: u32) -> (r: SapMsg)
    ensures
        r@ == purge_msg(issi),
{
    SapMsg {
        sap: Sap::Control,
        src: TetraEntity::Llc,
        dest: TetraEntity::Umac,
        msg: SapMsgInner::TmaPurgeByAddressReq { issi },
    }
}

/// The LLC delivers a primitive to the MLE.
pub open spec fn to_mle_msg(inner: SapInnerView) -> SapMsgView {
    SapMsgView { sap: Sap::TlaSap, src: TetraEntity::Llc, dest: TetraEntity::Mle, msg: inner }
}

/// See [`to_mle_msg`].
pub fn make_to_mle(inner: SapMsgInner) -> (r: SapMsg)
    ensures
        r@ == to_mle_msg(inner@),
{
    SapMsg { sap: Sap::TlaSap, src: TetraEntity::Llc, dest: TetraEntity::Mle, msg: inner }
}

/// The messages of a list, each by what it holds.
pub open spec fn msg_views(s: Seq<SapMsg>) -> Seq<SapMsgView> {
    Seq::new(s.len(), |i: int| s[i]@)
}

/// Queue of messages between the entities, oldest first.
pub struct MessageQueue {
    messages: Vec<SapMsg>,
}

impl View for MessageQueue {
    type V = Seq<SapMsgView>;

    closed spec fn view(&self) -> Seq<SapMsgView> {
        msg_views(self.messages@)
    }
}

impl MessageQueue {
    /// An empty queue.
    pub fn new() -> (r: MessageQueue)
        ensures
            r@ == Seq::<SapMsgView>::empty(),
    {
        let r = MessageQueue { messages: Vec::new() };
        assert(r@ =~= Seq::<SapMsgView>::empty());
        r
    }

    /// Appends a message.
    pub fn push_back(&mut self, msg: SapMsg)
        ensures
            final(self)@ == old(self)@.push(msg@),
    {
        self.messages.push(msg);
        assert(self@ =~= old(self)@.push(msg@));
    }

    /// Removes the oldest message.
    pub fn pop_front(&mut self) -> (r: Option<SapMsg>)
        ensures
            match r {
                Some(m) => old(self)@.len() > 0 && m@ == old(self)@[0] && final(self)@ == old(
                    self,
                )@.drop_first(),
                None => old(self)@.len() == 0 && final(self)@ == old(self)@,
            },
    {
        if self.messages.len() == 0 {
            return None;
        }
        let m: SapMsg = self.messages.remove(0);
        assert(self@ =~= old(self)@.drop_first());
        Some(m)
    }

    /// Appends every message of a list, in order.
    pub fn append(&mut self, msgs: Vec<SapMsg>)
        ensures
            final(self)@ == old(self)@ + msg_views(msgs@),
    {
        let mut msgs: Vec<SapMsg> = msgs;
        let ghost added = msgs@;
        self.messages.append(&mut msgs);
        assert(self@ =~= old(self)@ + msg_views(added));
    }

    /// Number of messages.
    pub fn len(&self) -> (r: usize)
        ensures
            r == self@.len(),
    {
        self.messages.len()
    }
}

} // verus!
