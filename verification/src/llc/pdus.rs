//! LLC PDUs in decoded form.

use crate::bits::{BitBuffer, BitsView};
use vstd::prelude::*;

verus! {

/// Service of an advanced link.
#[derive(Debug, Clone, Copy, PartialEq, Eq, Structural)]
pub enum AdvancedLinkService {
    Unack,
    Ack,
}

/// Symmetry of an advanced link.
#[derive(Debug, Clone, Copy, PartialEq, Eq, Structural)]
pub enum AdvancedLinkSymmetry {
    Symmetric,
    Asymmetric,
}

/// Share of the channel that an advanced link asks for.
#[derive(Debug, Clone, Copy, PartialEq, Eq, Structural)]
pub enum DataTransferThroughput {
    NetworkDependentMin,
    OneThirtySecond,
    OneSixteenth,
    OneEighth,
    OneQuarter,
    OneHalf,
    ThreeQuarters,
    Maximum,
}

/// Kind of advanced link.
#[derive(Debug, Clone, Copy, PartialEq, Eq, Structural)]
pub enum AdvancedLinkType {
    Original,
    Extended,
}

/// Longest TL-SDU of an advanced link (N.271).
#[derive(Debug, Clone, Copy, PartialEq, Eq, Structural)]
pub enum MaxTlSduLengthN271 {
    Bytes32,
    Bytes64,
    Bytes128,
    Bytes256,
    Bytes512,
    Bytes1024,
    Bytes2048,
    Bytes4096,
}

impl MaxTlSduLengthN271 {
    /// The length in octets.
    pub open spec fn octets_spec(self) -> u16 {
        match self {
            MaxTlSduLengthN271::Bytes32 => 32,
            MaxTlSduLengthN271::Bytes64 => 64,
            MaxTlSduLengthN271::Bytes128 => 128,
            MaxTlSduLengthN271::Bytes256 => 256,
            MaxTlSduLengthN271::Bytes512 => 512,
            MaxTlSduLengthN271::Bytes1024 => 1024,
            MaxTlSduLengthN271::Bytes2048 => 2048,
            MaxTlSduLengthN271::Bytes4096 => 4096,
        }
    }

    /// See [`MaxTlSduLengthN271::octets_spec`].
    pub fn octets(self) -> (r: u16)
        ensures
            r == self.octets_spec(),
    {
        match self {
            MaxTlSduLengthN271::Bytes32 => 32,
            MaxTlSduLengthN271::Bytes64 => 64,
            MaxTlSduLengthN271::Bytes128 => 128,
            MaxTlSduLengthN271::Bytes256 => 256,
            MaxTlSduLengthN271::Bytes512 => 512,
            MaxTlSduLengthN271::Bytes1024 => 1024,
            MaxTlSduLengthN271::Bytes2048 => 2048,
            MaxTlSduLengthN271::Bytes4096 => 4096,
        }
    }
}

/// What an AL-SETUP says about the link.
#[derive(Debug, Clone, Copy, PartialEq, Eq, Structural)]
pub enum SetupReport {
    Success,
    ServiceDefinition,
    ServiceChange,
    Reset,
}

/// AL-SETUP.
#[derive(Debug, Clone, Copy, PartialEq, Eq, Structural)]
pub struct AlSetup {
    pub advanced_link_service: AdvancedLinkService,
    pub advanced_link_number_n261: u8,
    pub max_tl_sdu_length_n271: MaxTlSduLengthN271,
    pub connection_width: u8,
    pub advanced_link_symmetry: AdvancedLinkSymmetry,
    pub n264_dqpsk_ts_uplink: Option<u8>,
    pub n264_dqpsk_ts_downlink: Option<u8>,
    pub data_transfer_throughput: DataTransferThroughput,
    pub tl_sdu_window_size_n272_n281: u8,
    pub max_retx_n273_or_repetition_n282: u8,
    pub max_segment_retx_n274: u8,
    pub setup_report: SetupReport,
    pub n_s: Option<u8>,
    pub advanced_link_type: Option<AdvancedLinkType>,
    pub n272_n281_augmented: Option<u8>,
    pub reserved: Option<u8>,
}

/// Why an advanced link is disconnected.
#[derive(Debug, Clone, Copy, PartialEq, Eq, Structural)]
pub enum AlDiscCause {
    Success,
    Close,
    Reject,
    Reserved,
}

/// AL-DISC.
#[derive(Debug, Clone, Copy, PartialEq, Eq, Structural)]
pub struct AlDisc {
    pub advanced_link_service: AdvancedLinkService,
    pub advanced_link_number_n261: u8,
    pub report: AlDiscCause,
}

/// What an AL-RECONNECT says.
#[derive(Debug, Clone, Copy, PartialEq, Eq, Structural)]
pub enum ReconnectReport {
    Propose,
    Reject,
    Accept,
    Reserved,
}

/// AL-RECONNECT.
#[derive(Debug, Clone, Copy, PartialEq, Eq, Structural)]
pub struct AlReconnect {
    pub advanced_link_service: AdvancedLinkService,
    pub advanced_link_number_n261: u8,
    pub reconnect_report: ReconnectReport,
}

/// Scope of an acknowledgement block.
#[derive(Debug, Clone, Copy, PartialEq, Eq, Structural)]
pub enum AckLength {
    /// The whole TL-SDU has arrived.
    EntireSduReceived,
    /// The TL-SDU has arrived and its check sequence failed.
    SduFcsFailure,
    /// The block reports on this many segments.
    Segments(u8),
}

/// S(R) of an acknowledgement block.
#[derive(Debug, Clone, Copy, PartialEq, Eq, Structural)]
pub enum SR {
    /// Number of the oldest segment that is missing.
    OldestNotReceived(u8),
    /// Nothing is missing.
    RestOfSduReceived,
}

/// One acknowledgement block of an AL-ACK or AL-RNR.
#[derive(Debug)]
pub struct AcknowledgementBlock {
    pub n_r: u8,
    pub ack_length: AckLength,
    pub s_r: Option<SR>,
    /// One bit for each segment after S(R), set when it has arrived.
    pub ack_bitmap: Option<Vec<bool>>,
}

/// What an [`AcknowledgementBlock`] holds.
#[verifier::ext_equal]
pub struct AckBlockView {
    pub n_r: u8,
    pub ack_length: AckLength,
    pub s_r: Option<SR>,
    pub ack_bitmap: Option<Seq<bool>>,
}

impl View for AcknowledgementBlock {
    type V = AckBlockView;

    open spec fn view(&self) -> AckBlockView {
        AckBlockView {
            n_r: self.n_r,
            ack_length: self.ack_length,
            s_r: self.s_r,
            ack_bitmap: match self.ack_bitmap {
                Some(v) => Some(v@),
                None => None,
            },
        }
    }
}

impl AcknowledgementBlock {
    /// A second block with the same contents.
    pub fn duplicate(&self) -> (r: AcknowledgementBlock)
        ensures
            r@ == self@,
    {
        AcknowledgementBlock {
            n_r: self.n_r,
            ack_length: self.ack_length,
            s_r: self.s_r,
            ack_bitmap: match &self.ack_bitmap {
                Some(v) => Some(crate::saps::copy_bits(v)),
                None => None,
            },
        }
    }

    /// A block that confirms the whole of TL-SDU `n_r`.
    pub fn entire(n_r: u8) -> (r: AcknowledgementBlock)
        ensures
            r@ == AckBlockView::entire(n_r),
    {
        AcknowledgementBlock {
            n_r,
            ack_length: AckLength::EntireSduReceived,
            s_r: None,
            ack_bitmap: None,
        }
    }

    /// A block that reports a failed check sequence on TL-SDU `n_r`.
    pub fn fcs_failure(n_r: u8) -> (r: AcknowledgementBlock)
        ensures
            r@ == AckBlockView::fcs_failure(n_r),
    {
        AcknowledgementBlock {
            n_r,
            ack_length: AckLength::SduFcsFailure,
            s_r: None,
            ack_bitmap: None,
        }
    }

    /// A cumulative block: every segment of `n_r` below `s_s` has arrived.
    pub fn cumulative(n_r: u8, s_s: u8) -> (r: AcknowledgementBlock)
        ensures
            r@ == AckBlockView::cumulative(n_r, s_s),
    {
        AcknowledgementBlock {
            n_r,
            ack_length: AckLength::Segments(1),
            s_r: Some(SR::OldestNotReceived(s_s)),
            ack_bitmap: None,
        }
    }
}

impl AckBlockView {
    /// See [`AcknowledgementBlock::entire`].
    pub open spec fn entire(n_r: u8) -> AckBlockView {
        AckBlockView {
            n_r,
            ack_length: AckLength::EntireSduReceived,
            s_r: None,
            ack_bitmap: None,
        }
    }

    /// See [`AcknowledgementBlock::fcs_failure`].
    pub open spec fn fcs_failure(n_r: u8) -> AckBlockView {
        AckBlockView { n_r, ack_length: AckLength::SduFcsFailure, s_r: None, ack_bitmap: None }
    }

    /// See [`AcknowledgementBlock::cumulative`].
    pub open spec fn cumulative(n_r: u8, s_s: u8) -> AckBlockView {
        AckBlockView {
            n_r,
            ack_length: AckLength::Segments(1),
            s_r: Some(SR::OldestNotReceived(s_s)),
            ack_bitmap: None,
        }
    }
}

/// Tells AL-ACK and AL-RNR apart.
#[derive(Debug, Clone, Copy, PartialEq, Eq, Structural)]
pub enum AlAckAlRnrKind {
    Ack,
    Rnr,
}

/// AL-ACK or AL-RNR: one acknowledgement block or more.
#[derive(Debug)]
pub struct AlAckAlRnr {
    pub kind: AlAckAlRnrKind,
    pub first_block: AcknowledgementBlock,
    pub other_blocks: Vec<AcknowledgementBlock>,
}

/// What an [`AlAckAlRnr`] holds; the blocks in order.
#[verifier::ext_equal]
pub struct AlAckView {
    pub kind: AlAckAlRnrKind,
    pub blocks: Seq<AckBlockView>,
}

/// The blocks of a list, each by what it holds.
pub open spec fn block_views(s: Seq<AcknowledgementBlock>) -> Seq<AckBlockView> {
    Seq::new(s.len(), |i: int| s[i]@)
}

impl View for AlAckAlRnr {
    type V = AlAckView;

    open spec fn view(&self) -> AlAckView {
        AlAckView {
            kind: self.kind,
            blocks: seq![self.first_block@] + block_views(self.other_blocks@),
        }
    }
}

impl AlAckAlRnr {
    /// An AL-ACK with one block.
    pub fn single(block: AcknowledgementBlock) -> (r: AlAckAlRnr)
        ensures
            r@ == (AlAckView { kind: AlAckAlRnrKind::Ack, blocks: seq![block@] }),
    {
        let r = AlAckAlRnr {
            kind: AlAckAlRnrKind::Ack,
            first_block: block,
            other_blocks: Vec::new(),
        };
        assert(r@.blocks =~= seq![block@]);
        r
    }

    /// A second PDU with the same contents.
    pub fn duplicate(&self) -> (r: AlAckAlRnr)
        ensures
            r@ == self@,
    {
        let n: usize = self.other_blocks.len();
        let mut other: Vec<AcknowledgementBlock> = Vec::new();
        let mut i: usize = 0;
        while i < n
            invariant
                i <= n,
                n == self.other_blocks@.len(),
                other@.len() == i,
                forall|j: int| 0 <= j < i ==> (#[trigger] other@[j])@ == self.other_blocks@[j]@,
            decreases n - i,
        {
            let b: AcknowledgementBlock = self.other_blocks[i].duplicate();
            other.push(b);
            i = i + 1;
        }
        let r = AlAckAlRnr {
            kind: self.kind,
            first_block: self.first_block.duplicate(),
            other_blocks: other,
        };
        assert(r@.blocks =~= self@.blocks);
        r
    }
}

/// What a reassembler made of one AL-DATA or AL-FINAL.
#[derive(Debug)]
pub enum AlFeed {
    /// The TL-SDU is complete and its check sequence holds.
    Complete { sdu: Vec<bool> },
    /// The TL-SDU is complete and its check sequence fails.
    FcsFailure,
    /// Segments are missing; the number of the next one expected.
    NeedMore { next_expected_ss: u8 },
    /// The segment was refused; the number of the next one expected.
    Error { next_expected_ss: u8 },
}

/// What an [`AlFeed`] holds.
#[verifier::ext_equal]
pub enum AlFeedView {
    Complete { sdu: Seq<bool> },
    FcsFailure,
    NeedMore { next_expected_ss: u8 },
    Error { next_expected_ss: u8 },
}

impl View for AlFeed {
    type V = AlFeedView;

    open spec fn view(&self) -> AlFeedView {
        match *self {
            AlFeed::Complete { sdu } => AlFeedView::Complete { sdu: sdu@ },
            AlFeed::FcsFailure => AlFeedView::FcsFailure,
            AlFeed::NeedMore { next_expected_ss } => AlFeedView::NeedMore { next_expected_ss },
            AlFeed::Error { next_expected_ss } => AlFeedView::Error { next_expected_ss },
        }
    }
}

/// What a reassembler made of one AL-UDATA or AL-UFINAL.
#[derive(Debug)]
pub enum AlUnackFeed {
    Complete { sdu: Vec<bool> },
    FcsFailure,
    NeedMore,
    Discarded,
    Error,
}

/// What an [`AlUnackFeed`] holds.
#[verifier::ext_equal]
pub enum AlUnackFeedView {
    Complete { sdu: Seq<bool> },
    FcsFailure,
    NeedMore,
    Discarded,
    Error,
}

impl View for AlUnackFeed {
    type V = AlUnackFeedView;

    open spec fn view(&self) -> AlUnackFeedView {
        match *self {
            AlUnackFeed::Complete { sdu } => AlUnackFeedView::Complete { sdu: sdu@ },
            AlUnackFeed::FcsFailure => AlUnackFeedView::FcsFailure,
            AlUnackFeed::NeedMore => AlUnackFeedView::NeedMore,
            AlUnackFeed::Discarded => AlUnackFeedView::Discarded,
            AlUnackFeed::Error => AlUnackFeedView::Error,
        }
    }
}

/// Why a TL-SDU could not be cut into segments.
#[derive(Debug, Clone, Copy, PartialEq, Eq, Structural)]
pub enum SegmentationError {
    EmptySdu,
    PayloadTooSmall,
    TooManySegments,
}

/// A received LLC PDU, decoded. The body of a basic-link PDU is positioned behind
/// its header. An AL-DATA or AL-UDATA comes with what the reassembler of its link
/// made of it.
#[derive(Debug)]
pub enum RxPdu {
    BlAdata { has_fcs: bool, nr: u8, ns: u8, body: BitBuffer },
    BlData { has_fcs: bool, ns: u8, body: BitBuffer },
    BlAck { has_fcs: bool, nr: u8, body: BitBuffer },
    BlUdata { has_fcs: bool, body: BitBuffer },
    AlSetup(AlSetup),
    AlData { ar: bool, n_s: u8, feed: AlFeed },
    AlUdata { n_s: u8, unack_feed: AlUnackFeed },
    AlAck(AlAckAlRnr),
    AlReconnect(AlReconnect),
    AlDisc(AlDisc),
    /// A PDU type that is valid and not served.
    Unsupported,
    /// The PDU could not be decoded.
    Malformed,
}

/// What an [`RxPdu`] holds.
#[verifier::ext_equal]
pub enum RxPduView {
    BlAdata { has_fcs: bool, nr: u8, ns: u8, body: BitsView },
    BlData { has_fcs: bool, ns: u8, body: BitsView },
    BlAck { has_fcs: bool, nr: u8, body: BitsView },
    BlUdata { has_fcs: bool, body: BitsView },
    AlSetup(AlSetup),
    AlData { ar: bool, n_s: u8, feed: AlFeedView },
    AlUdata { n_s: u8, unack_feed: AlUnackFeedView },
    AlAck(AlAckView),
    AlReconnect(AlReconnect),
    AlDisc(AlDisc),
    Unsupported,
    Malformed,
}

impl View for RxPdu {
    type V = RxPduView;

    open spec fn view(&self) -> RxPduView {
        match *self {
            RxPdu::BlAdata { has_fcs, nr, ns, body } => RxPduView::BlAdata {
                has_fcs,
                nr,
                ns,
                body: body@,
            },
            RxPdu::BlData { has_fcs, ns, body } => RxPduView::BlData { has_fcs, ns, body: body@ },
            RxPdu::BlAck { has_fcs, nr, body } => RxPduView::BlAck { has_fcs, nr, body: body@ },
            RxPdu::BlUdata { has_fcs, body } => RxPduView::BlUdata { has_fcs, body: body@ },
            RxPdu::AlSetup(p) => RxPduView::AlSetup(p),
            RxPdu::AlData { ar, n_s, feed } => RxPduView::AlData { ar, n_s, feed: feed@ },
            RxPdu::AlUdata { n_s, unack_feed } => RxPduView::AlUdata {
                n_s,
                unack_feed: unack_feed@,
            },
            RxPdu::AlAck(p) => RxPduView::AlAck(p@),
            RxPdu::AlReconnect(p) => RxPduView::AlReconnect(p),
            RxPdu::AlDisc(p) => RxPduView::AlDisc(p),
            RxPdu::Unsupported => RxPduView::Unsupported,
            RxPdu::Malformed => RxPduView::Malformed,
        }
    }
}

} // verus!
