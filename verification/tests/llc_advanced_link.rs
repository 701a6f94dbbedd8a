use std::collections::{BTreeMap, HashMap};
use tetra_pd::al_events::{AlDeliveryEvent, AlDeliveryHook, AlDeliveryOutcome};
use tetra_pd::bits::BitBuffer;
use tetra_pd::fcs::compute_fcs;
use tetra_pd::llc::al_link::{AlLink, AlLinkKey, AlPhase};
use tetra_pd::llc::al_tx::{AlError, Reassembly};
use tetra_pd::llc::config::{LlcConfig, LlcLimits};
use tetra_pd::llc::entity::Llc;
use tetra_pd::llc::pdus::{
    AckLength, AcknowledgementBlock, AdvancedLinkService, AdvancedLinkSymmetry, AlAckAlRnr,
    AlAckAlRnrKind, AlDisc, AlDiscCause, AlFeed, AlReconnect, AlSetup, AlUnackFeed,
    DataTransferThroughput, MaxTlSduLengthN271, ReconnectReport, RxPdu, SegmentationError,
    SetupReport, SR,
};
use tetra_pd::saps::{
    ChannelInfo, LlcPdu, MessageQueue, Sap, SapMsg, SapMsgInner, SsiType, TetraAddress,
    TetraEntity, TlaIndAl, TlaReqAl, TmaUnitdataInd, TxState,
};
use tetra_pd::sec_llc::CfgAdvancedLink;
use tetra_pd::tdma::TdmaTime;

const CARRIER: u16 = 1521;
const SSI: u32 = 1234567;
const LINK_ID: u32 = 0;
const ENDPOINT_ID: u32 = 0;
const N261: u8 = 0;

const T251_SENDER_RETRY_TIMER: u32 = 16;
const T252_ACK_WAITING_TIMER: u32 = 36;
const T261_SETUP_WAITING_TIMER: u32 = 16;
const T272_RECEIVER_NOT_READY_FOR_RX_TIMER: u32 = 1296;

fn limits() -> LlcLimits {
    LlcLimits {
        t251_sender_retry: T251_SENDER_RETRY_TIMER,
        t252_ack_waiting: T252_ACK_WAITING_TIMER,
        t261_setup_waiting: T261_SETUP_WAITING_TIMER,
        t263_disconnect_waiting: 16,
        t265_reconnect_waiting: 16,
        t271_not_ready_for_tx: 2592,
        t272_not_ready_for_rx: T272_RECEIVER_NOT_READY_FOR_RX_TIMER,
        n251_bl_max_tlsdu_len_bits: 2595,
        n252_bl_max_retransmits: 3,
    }
}

fn test_addr() -> TetraAddress {
    TetraAddress::new(SSI, SsiType::Issi)
}

fn test_key() -> AlLinkKey {
    AlLinkKey::from_prim(test_addr(), LINK_ID, ENDPOINT_ID, N261)
}

fn make_setup_pdu(report: SetupReport) -> AlSetup {
    AlSetup {
        advanced_link_service: AdvancedLinkService::Ack,
        advanced_link_number_n261: N261,
        max_tl_sdu_length_n271: MaxTlSduLengthN271::Bytes256,
        connection_width: 0,
        advanced_link_symmetry: AdvancedLinkSymmetry::Symmetric,
        n264_dqpsk_ts_uplink: None,
        n264_dqpsk_ts_downlink: None,
        data_transfer_throughput: DataTransferThroughput::NetworkDependentMin,
        tl_sdu_window_size_n272_n281: 3,
        max_retx_n273_or_repetition_n282: 3,
        max_segment_retx_n274: 3,
        setup_report: report,
        n_s: None,
        advanced_link_type: None,
        n272_n281_augmented: None,
        reserved: None,
    }
}

fn make_setup_pdu_extended(report: SetupReport) -> AlSetup {
    AlSetup {
        connection_width: 1,
        n264_dqpsk_ts_uplink: Some(1),
        n264_dqpsk_ts_downlink: None,
        ..make_setup_pdu(report)
    }
}

fn make_setup_pdu_with_retx(report: SetupReport, max_retx: u8) -> AlSetup {
    AlSetup { max_retx_n273_or_repetition_n282: max_retx, ..make_setup_pdu(report) }
}

fn make_setup_pdu_with_both_retx(
    report: SetupReport,
    max_sdu_retx: u8,
    max_seg_retx: u8,
) -> AlSetup {
    AlSetup {
        max_retx_n273_or_repetition_n282: max_sdu_retx,
        max_segment_retx_n274: max_seg_retx,
        ..make_setup_pdu(report)
    }
}

fn make_tma_ind(pdu: RxPdu) -> SapMsg {
    SapMsg {
        sap: Sap::TmaSap,
        src: TetraEntity::Umac,
        dest: TetraEntity::Llc,
        msg: SapMsgInner::TmaUnitdataInd(TmaUnitdataInd {
            carrier_num: CARRIER,
            pdu: Some(pdu),
            main_address: test_addr(),
            link_id: LINK_ID,
            endpoint_id: ENDPOINT_ID,
            channel: ChannelInfo {
                new_endpoint_id: None,
                css_endpoint_id: None,
                scrambling_code: 0,
                air_interface_encryption: 0,
                chan_change_response_req: false,
                chan_change_handle: None,
                chan_info: None,
            },
        }),
    }
}

fn bits_of(octets: &[u8]) -> Vec<bool> {
    octets.iter().flat_map(|o| (0..8).rev().map(move |i| o >> i & 1 == 1)).collect()
}

/// A segment of a TL-SDU on its way to the base station.
#[derive(Clone)]
struct Segment {
    last: bool,
    ar: bool,
    n_s: u8,
    s_s: u8,
    bits: Vec<bool>,
}

/// Cuts a TL-SDU and its checksum into segments. The last one asks for confirmation.
fn segment_sdu(sdu: &[u8], payload_bits: usize, n_s: u8) -> Vec<Segment> {
    let mut all = bits_of(sdu);
    let fcs = compute_fcs(&BitBuffer::from_bits(all.clone()), 0, all.len());
    all.extend((0..32).rev().map(|i| fcs >> i & 1 == 1));
    let count = all.len().div_ceil(payload_bits);
    all.chunks(payload_bits)
        .enumerate()
        .map(|(i, c)| Segment {
            last: i + 1 == count,
            ar: i + 1 == count,
            n_s,
            s_s: i as u8,
            bits: c.to_vec(),
        })
        .collect()
}

/// A segment that is not the last one.
fn make_al_data_fragment(ar: bool, n_s: u8, s_s: u8) -> Segment {
    let bits = vec![true, false, true, false, true, false, true, false];
    Segment { last: false, ar, n_s, s_s, bits }
}

/// Puts segments together.
#[derive(Default)]
struct Reassembler {
    got: BTreeMap<u8, Vec<bool>>,
    last: Option<u8>,
}

impl Reassembler {
    fn next_expected(&self) -> u8 {
        (0..=u8::MAX).find(|s| !self.got.contains_key(s)).unwrap_or(0)
    }

    fn feed(&mut self, segment: &Segment) -> AlFeed {
        if self.got.get(&segment.s_s).is_some_and(|b| *b != segment.bits) {
            return AlFeed::Error { next_expected_ss: self.next_expected() };
        }
        self.got.insert(segment.s_s, segment.bits.clone());
        if segment.last {
            self.last = Some(segment.s_s);
        }
        let next = self.next_expected();
        if self.last.is_none_or(|l| next <= l) {
            return AlFeed::NeedMore { next_expected_ss: next };
        }
        let all: Vec<bool> = self.got.values().flatten().copied().collect();
        let body = all.len() - 32;
        let buf = BitBuffer::from_bits(all.clone());
        let fcs = buf.peek_bits_startoffset(body, 32).unwrap() as u32;
        if compute_fcs(&buf, 0, body) == fcs {
            AlFeed::Complete { sdu: all[..body].to_vec() }
        } else {
            AlFeed::FcsFailure
        }
    }
}

/// An LLC with the segmenter, the reassemblers and the queue round it.
struct Rig {
    llc: Llc,
    queue: MessageQueue,
    reassemblers: HashMap<u8, Reassembler>,
}

impl Rig {
    fn with(change: impl Fn(&mut CfgAdvancedLink)) -> Rig {
        let mut advanced_link = CfgAdvancedLink::default();
        change(&mut advanced_link);
        let config = LlcConfig { main_carrier: CARRIER, advanced_link, limits: limits() };
        Rig { llc: Llc::new(config), queue: MessageQueue::new(), reassemblers: HashMap::new() }
    }

    fn new() -> Rig {
        Rig::with(|_| {})
    }

    fn link(&self) -> &AlLink {
        self.llc.al_links.get(&test_key()).expect("link exists")
    }

    fn drain(&mut self) -> Vec<SapMsg> {
        let mut msgs = Vec::new();
        while let Some(m) = self.queue.pop_front() {
            msgs.push(m);
        }
        msgs
    }

    fn rx(&mut self, pdu: RxPdu) {
        self.llc.rx_prim(&mut self.queue, make_tma_ind(pdu));
    }

    /// Takes a segment in, by way of the reassembler that the LLC asks for.
    fn rx_segment(&mut self, segment: &Segment) {
        let feed = match self.llc.data_reassembly(SSI, LINK_ID, ENDPOINT_ID, segment.n_s) {
            Reassembly::Skip => AlFeed::NeedMore { next_expected_ss: 0 },
            Reassembly::Start => {
                let mut r = Reassembler::default();
                let feed = r.feed(segment);
                self.reassemblers.insert(segment.n_s, r);
                feed
            }
            Reassembly::Continue => {
                self.reassemblers.get_mut(&segment.n_s).unwrap().feed(segment)
            }
        };
        self.rx(RxPdu::AlData { ar: segment.ar, n_s: segment.n_s, feed });
    }

    fn segments(&self, sdu: &[u8]) -> Result<Vec<Vec<bool>>, SegmentationError> {
        match self.llc.segmenter_config(test_key()) {
            Some(c) => Ok(segment_sdu(sdu, c.segment_payload_bits, c.starting_n_s)
                .into_iter()
                .map(|s| s.bits)
                .collect()),
            None => Err(SegmentationError::EmptySdu),
        }
    }

    /// A TL-SDU from above.
    fn send(&mut self, sdu: &[u8]) {
        let req = TlaReqAl {
            main_address: test_addr(),
            link_id: LINK_ID,
            endpoint_id: ENDPOINT_ID,
            al_link_number: N261,
            tl_sdu: sdu.to_vec(),
            segments: self.segments(sdu),
        };
        self.llc.rx_prim(
            &mut self.queue,
            SapMsg {
                sap: Sap::TlaSap,
                src: TetraEntity::Mle,
                dest: TetraEntity::Llc,
                msg: SapMsgInner::TlaTlDataReqAl(req),
            },
        );
    }

    fn tick_start(&mut self, ts: TdmaTime) {
        self.llc.tick_start(ts);
    }

    fn tick_end(&mut self) {
        let end = self.llc.tick_end(&mut self.queue);
        for p in end.al.pending {
            let segments = self.segments(&p.sdu);
            let _ = self.llc.enqueue_al_sdu(&mut self.queue, p.key, p.sdu, segments);
        }
        self.llc.finish_al_activity(&mut self.queue, end.al.msgs, &end.al.drops);
    }

    fn one_tick(&mut self, ts: TdmaTime, pdu: RxPdu) {
        self.tick_start(ts);
        self.rx(pdu);
        self.tick_end();
    }

    fn tick_at(&mut self, ts: TdmaTime) -> Vec<SapMsg> {
        self.tick_start(ts);
        self.tick_end();
        self.drain()
    }

    fn send_setup(&mut self, setup: AlSetup) -> Vec<SapMsg> {
        self.one_tick(TdmaTime::default(), RxPdu::AlSetup(setup));
        self.drain()
    }

    fn establish_link(&mut self) -> Vec<SapMsg> {
        self.send_setup(make_setup_pdu(SetupReport::ServiceDefinition))
    }

    /// Marks every pending segment as sent on the air and starts the wait at `now`.
    fn mark_all_segments_transmitted_at(&mut self, now: TdmaTime) {
        for link in self.llc.al_links.links.iter_mut() {
            for sdu in link.outstanding_sdus.iter_mut() {
                for rep in sdu.segment_reporters.iter_mut().flatten() {
                    if rep.state == TxState::Pending {
                        rep.state = TxState::Transmitted;
                    }
                }
                if sdu.last_segment_tx_at.is_none() {
                    sdu.last_segment_tx_at = Some(now);
                }
            }
        }
    }

    /// Reports one segment of the first TL-SDU as sent on the air.
    fn mark_segment_transmitted(&mut self, index: usize) {
        let rep = self.link().outstanding_sdus[0].segment_reporters[index].unwrap();
        if rep.state == TxState::Pending {
            self.llc.on_tx_report(rep.id, TxState::Transmitted);
        }
    }

    fn establish_and_tx_one_sdu(&mut self, max_retx: u8, sdu: &[u8]) -> TdmaTime {
        self.send_setup(make_setup_pdu_with_retx(SetupReport::ServiceDefinition, max_retx));
        self.send(sdu);
        self.drain();
        self.mark_all_segments_transmitted_at(TdmaTime::default());
        assert_eq!(self.link().outstanding_sdus.len(), 1, "one SDU must be outstanding after tx");
        assert_eq!(self.link().max_sdu_retx, max_retx, "negotiated max_sdu_retx must be honored");
        TdmaTime::default()
    }

    fn establish_and_tx_one_sdu_full(
        &mut self,
        max_sdu_retx: u8,
        max_seg_retx: u8,
        sdu: &[u8],
    ) -> TdmaTime {
        self.send_setup(make_setup_pdu_with_both_retx(
            SetupReport::ServiceDefinition,
            max_sdu_retx,
            max_seg_retx,
        ));
        self.send(sdu);
        self.drain();
        self.mark_all_segments_transmitted_at(TdmaTime::default());
        assert_eq!(self.link().outstanding_sdus.len(), 1, "one SDU outstanding");
        assert_eq!(self.link().max_sdu_retx, max_sdu_retx);
        assert_eq!(self.link().max_segment_retx, max_seg_retx);
        TdmaTime::default()
    }

    /// Feeds one fragment that leaves a reassembly open at N(S) = 0.
    fn prime_stale_reassembler(&mut self, ts: TdmaTime) {
        self.tick_start(ts);
        self.rx_segment(&make_al_data_fragment(false, 0, 0));
        self.tick_end();
        self.drain();
        assert!(
            self.link().reassemblers.iter().any(|r| r.n_s == 0),
            "prime step should have created a reassembler at N(S)=0"
        );
    }

    /// Feeds a TL-SDU of one segment that starts at N(S) = 0.
    fn feed_fresh_single_pdu_sdu(&mut self, ts: TdmaTime, sdu: &[u8]) -> TlaIndAl {
        let out = segment_sdu(sdu, 400, 0);
        assert_eq!(out.len(), 1, "test SDU should fit in one segment");
        self.tick_start(ts);
        self.rx_segment(&out[0]);
        self.tick_end();
        let msgs = self.drain();
        take_data_ind_al(msgs).expect("TlaTlDataIndAl must be delivered after fresh s_s=0")
    }
}

fn take_data_ind_al(msgs: Vec<SapMsg>) -> Option<TlaIndAl> {
    msgs.into_iter().find_map(|m| match m.msg {
        SapMsgInner::TlaTlDataIndAl(ind) => Some(ind),
        _ => None,
    })
}

fn umac_pdus(msgs: &[SapMsg]) -> usize {
    msgs.iter().filter(|m| matches!(m.msg, SapMsgInner::TmaUnitdataReq(_))).count()
}

fn extract_al_ack(msgs: Vec<SapMsg>) -> AlAckAlRnr {
    let pdu = msgs
        .into_iter()
        .find_map(|m| match m.msg {
            SapMsgInner::TmaUnitdataReq(r) => Some(r.pdu),
            _ => None,
        })
        .expect("at least one TmaUnitdataReq must be present");
    match pdu {
        LlcPdu::AlAck(ack) => ack,
        other => panic!("expected AlAckAlRnr, got {other:?}"),
    }
}

fn ack(kind: AlAckAlRnrKind) -> RxPdu {
    RxPdu::AlAck(AlAckAlRnr {
        kind,
        first_block: AcknowledgementBlock {
            n_r: 0,
            ack_length: AckLength::EntireSduReceived,
            s_r: None,
            ack_bitmap: None,
        },
        other_blocks: vec![],
    })
}

fn disc() -> RxPdu {
    RxPdu::AlDisc(AlDisc {
        advanced_link_service: AdvancedLinkService::Ack,
        advanced_link_number_n261: N261,
        report: AlDiscCause::Success,
    })
}

fn reconnect_propose() -> RxPdu {
    RxPdu::AlReconnect(AlReconnect {
        advanced_link_service: AdvancedLinkService::Ack,
        advanced_link_number_n261: N261,
        reconnect_report: ReconnectReport::Propose,
    })
}

fn multifrag_payload() -> Vec<u8> {
    (0..200u16).map(|i| (i & 0xff) as u8).collect()
}

#[test]
fn al_setup_from_peer_transitions_to_established() {
    let mut rig = Rig::new();
    let msgs = rig.establish_link();
    assert_eq!(rig.link().phase, AlPhase::Established);
    assert_eq!(msgs.len(), 1);
    let SapMsgInner::TmaUnitdataReq(ref req) = msgs[0].msg else {
        panic!("expected TmaUnitdataReq");
    };
    assert_eq!(req.main_address.ssi, SSI);
    assert!(matches!(
        req.pdu,
        LlcPdu::AlSetup(AlSetup { setup_report: SetupReport::Success, .. })
    ));
}

#[test]
fn al_disc_from_peer_removes_link() {
    let mut rig = Rig::new();
    rig.establish_link();
    assert!(rig.llc.al_links.contains_key(&test_key()));
    rig.one_tick(TdmaTime::default(), disc());
    let msgs = rig.drain();
    assert!(
        !rig.llc.al_links.contains_key(&test_key()),
        "link should be removed after DISC"
    );
    assert_eq!(msgs.len(), 2, "expected purge + DISC reply, got {:?}", msgs);
    match &msgs[0].msg {
        SapMsgInner::TmaPurgeByAddressReq { issi } => {
            assert_eq!(*issi, SSI, "purge must carry the peer ISSI");
        }
        other => panic!("expected TmaPurgeByAddressReq first, got {:?}", other),
    }
    assert!(matches!(msgs[1].msg, SapMsgInner::TmaUnitdataReq(_)));
}

#[test]
fn al_disc_confirming_our_disc_emits_purge() {
    let mut rig = Rig::new();
    rig.establish_link();
    rig.llc.al_links.get_mut(&test_key()).expect("link").phase = AlPhase::DisconnectPending;
    rig.drain();
    rig.one_tick(TdmaTime::default(), disc());
    let msgs = rig.drain();
    assert!(!rig.llc.al_links.contains_key(&test_key()));
    assert_eq!(msgs.len(), 1, "expected purge only, got {:?}", msgs);
    match &msgs[0].msg {
        SapMsgInner::TmaPurgeByAddressReq { issi } => assert_eq!(*issi, SSI),
        other => panic!("expected TmaPurgeByAddressReq, got {:?}", other),
    }
}

#[test]
fn al_disc_without_established_link_no_purge() {
    let mut rig = Rig::new();
    rig.one_tick(TdmaTime::default(), disc());
    let msgs = rig.drain();
    assert_eq!(msgs.len(), 1, "expected only DISC echo, got {:?}", msgs);
    assert!(
        !matches!(msgs[0].msg, SapMsgInner::TmaPurgeByAddressReq { .. }),
        "unknown-link DISC must not emit purge"
    );
    assert!(matches!(msgs[0].msg, SapMsgInner::TmaUnitdataReq(_)));
}

#[test]
fn al_data_single_pdu_sdu_acked() {
    let mut rig = Rig::new();
    rig.establish_link();
    let sdu = b"hello".to_vec();
    let out = segment_sdu(&sdu, 400, 0);
    assert_eq!(out.len(), 1, "short SDU should produce exactly one segment");
    rig.tick_start(TdmaTime::default());
    rig.rx_segment(&out[0]);
    rig.tick_end();
    let mut msgs = rig.drain();
    let at = msgs
        .iter()
        .position(|m| matches!(m.msg, SapMsgInner::TlaTlDataIndAl(_)))
        .expect("TlaTlDataIndAl must be in queue");
    let ind = take_data_ind_al(vec![msgs.remove(at)]).unwrap();
    assert_eq!(ind.tl_sdu, bits_of(&sdu), "reassembled SDU must match original");
    assert!(ind.fcs_ok, "fcs_ok must be true");
    assert_eq!(msgs.len(), 1, "expected exactly one AL-ACK");
    let ack = extract_al_ack(msgs);
    assert_eq!(ack.kind, AlAckAlRnrKind::Ack);
    assert_eq!(ack.first_block.ack_length, AckLength::EntireSduReceived);
    assert_eq!(ack.first_block.n_r, 0, "N(R) must be 0 (the N(S) we sent)");
}

#[test]
fn al_data_multi_pdu_sdu_reassembles_and_acks() {
    let mut rig = Rig::new();
    rig.establish_link();
    let sdu: Vec<u8> = (0u8..200).collect();
    let out = segment_sdu(&sdu, 50, 0);
    assert!(out.len() >= 3, "should produce multiple segments");
    let mut all_msgs: Vec<SapMsg> = Vec::new();
    for segment in &out {
        rig.tick_start(TdmaTime::default());
        rig.rx_segment(segment);
        rig.tick_end();
        all_msgs.extend(rig.drain());
    }
    assert!(umac_pdus(&all_msgs) > 0, "at least one AL-ACK must be emitted");
    let ind = take_data_ind_al(all_msgs)
        .expect("TlaTlDataIndAl must be delivered after reassembly");
    assert_eq!(ind.tl_sdu, bits_of(&sdu), "reassembled SDU must match original");
}

#[test]
fn al_data_fcs_corruption_generates_repeat_ack() {
    let mut rig = Rig::new();
    rig.establish_link();
    let mut out = segment_sdu(b"corrupt me", 400, 0);
    assert_eq!(out.len(), 1, "one segment");
    out[0].bits[3] = !out[0].bits[3];
    rig.tick_start(TdmaTime::default());
    rig.rx_segment(&out[0]);
    rig.tick_end();
    let msgs = rig.drain();
    assert!(umac_pdus(&msgs) > 0, "an AL-ACK must be emitted on FCS failure");
    assert!(!msgs.iter().any(|m| matches!(m.msg, SapMsgInner::TlaTlDataIndAl(_))));
    assert_eq!(
        extract_al_ack(msgs).first_block.ack_length,
        AckLength::SduFcsFailure,
        "ACK length must be SduFcsFailure on FCS error"
    );
}

#[test]
fn al_ack_from_peer_advances_window() {
    let mut rig = Rig::new();
    rig.establish_link();
    rig.send(b"window test");
    assert_eq!(rig.link().outstanding_sdus.len(), 1);
    rig.drain();
    rig.one_tick(TdmaTime::default(), ack(AlAckAlRnrKind::Ack));
    assert_eq!(
        rig.link().outstanding_sdus.len(),
        0,
        "ACK must remove the SDU from the window"
    );
}

#[test]
fn al_rnr_from_peer_freezes_tx() {
    let mut rig = Rig::new();
    rig.establish_link();
    rig.send(b"first sdu");
    rig.drain();
    rig.one_tick(TdmaTime::default(), ack(AlAckAlRnrKind::Rnr));
    rig.drain();
    assert_eq!(
        rig.link().phase,
        AlPhase::FlowControlled,
        "link must be FlowControlled after RNR"
    );
    rig.send(b"second sdu");
    assert_eq!(rig.link().outstanding_sdus.len(), 1, "one SDU should be outstanding");
    let msgs = rig.tick_at(TdmaTime::default());
    assert_eq!(umac_pdus(&msgs), 0, "no PDUs should be sent to UMAC while FlowControlled");
    let ts_past =
        TdmaTime::default().add_timeslots(T272_RECEIVER_NOT_READY_FOR_RX_TIMER as i32 + 1);
    let msgs = rig.tick_at(ts_past);
    assert_eq!(
        rig.link().phase,
        AlPhase::Established,
        "link must be Established after T.272 expiry"
    );
    assert!(umac_pdus(&msgs) > 0, "PDUs must be sent after T.272 expiry");
}

#[test]
fn al_setup_timeout_retries_then_gives_up() {
    let mut rig = Rig::new();
    rig.establish_link();
    rig.drain();
    {
        let link = rig.llc.al_links.get_mut(&test_key()).unwrap();
        link.phase = AlPhase::SetupPending;
        link.t_setup_start = Some(TdmaTime::default());
        link.setup_retries = 0;
        link.pending_setup_pdu = Some(make_setup_pdu(SetupReport::ServiceDefinition));
    }
    let interval = T261_SETUP_WAITING_TIMER + 1;
    let mut t = TdmaTime::default();
    for _ in 0..(4 * interval) {
        t = t.add_timeslots(1);
        rig.tick_at(t);
    }
    let phase = rig.llc.al_links.get(&test_key()).map(|l| l.phase);
    assert_eq!(
        phase,
        Some(AlPhase::Idle),
        "link must return to Idle after N.262 retries exhausted; got {:?}",
        phase
    );
}

#[test]
fn al_reconnect_propose_from_peer_accepted() {
    let mut rig = Rig::new();
    rig.establish_link();
    rig.drain();
    rig.one_tick(TdmaTime::default(), reconnect_propose());
    let msgs = rig.drain();
    assert_eq!(rig.link().phase, AlPhase::Established);
    assert_eq!(msgs.len(), 1);
    assert!(matches!(msgs[0].msg, SapMsgInner::TmaUnitdataReq(_)));
}

#[test]
fn al_sdu_window_full_buffers_in_pending() {
    let mut rig = Rig::new();
    rig.send_setup(make_setup_pdu_extended(SetupReport::ServiceDefinition));
    for i in 0..3u8 {
        rig.send(&[i; 10]);
        rig.drain();
    }
    assert_eq!(rig.link().outstanding_sdus.len(), 3, "window must be full with 3 SDUs");
    rig.send(b"overflow");
    assert_eq!(
        rig.link().pending_sdus.len(),
        1,
        "fourth SDU must be buffered in pending_sdus"
    );
    assert_eq!(rig.link().outstanding_sdus.len(), 3, "window must still have 3 SDUs");
}

#[test]
fn al_conn_w_zero_serializes_tx() {
    let mut rig = Rig::new();
    rig.establish_link();
    assert_eq!(rig.link().tx_window, 3);
    assert_eq!(
        rig.link().effective_tx_sdu_window,
        1,
        "connection_width == 0 must clamp effective window to 1"
    );
    rig.tick_start(TdmaTime::default());
    rig.send(b"first");
    rig.send(b"second");
    let link = rig.link();
    assert_eq!(
        link.outstanding_sdus.len(),
        1,
        "only one SDU may be outstanding under conn_w=0 serialization"
    );
    assert_eq!(link.pending_sdus.len(), 1, "second SDU must be buffered in pending_sdus");
    assert_eq!(link.outstanding_sdus[0].n_s, 0);
}

#[test]
fn al_pending_sdu_drains_on_ack() {
    let mut rig = Rig::new();
    rig.establish_link();
    rig.send(b"first");
    rig.send(b"second");
    rig.drain();
    assert_eq!(rig.link().outstanding_sdus.len(), 1);
    assert_eq!(rig.link().pending_sdus.len(), 1);
    rig.one_tick(TdmaTime::default(), ack(AlAckAlRnrKind::Ack));
    let msgs = rig.drain();
    let link = rig.link();
    assert_eq!(link.pending_sdus.len(), 0, "pending SDU must drain after ACK");
    assert_eq!(
        link.outstanding_sdus.len(),
        1,
        "the promoted SDU now occupies the window (N(S)=1)"
    );
    assert_eq!(link.outstanding_sdus[0].n_s, 1, "the second SDU inherits N(S)=1");
    assert!(umac_pdus(&msgs) > 0, "AL-DATA PDUs for the promoted SDU must be emitted");
}

#[test]
fn al_single_sdu_unaffected_by_serialization_gate() {
    let mut rig = Rig::new();
    rig.establish_link();
    rig.send(b"just one");
    assert_eq!(rig.link().outstanding_sdus.len(), 1, "single SDU must be outstanding");
    assert_eq!(rig.link().pending_sdus.len(), 0, "no pending");
    assert_eq!(rig.link().outstanding_sdus[0].n_s, 0);
    let msgs = rig.drain();
    assert!(umac_pdus(&msgs) > 0, "AL-DATA PDUs must be emitted immediately");
}

#[test]
fn al_conn_w_one_honors_negotiated_window() {
    let mut rig = Rig::new();
    rig.send_setup(make_setup_pdu_extended(SetupReport::ServiceDefinition));
    assert_eq!(rig.link().tx_window, 3);
    assert_eq!(
        rig.link().effective_tx_sdu_window,
        3,
        "connection_width == 1 must preserve the negotiated window"
    );
    for i in 0..3u8 {
        rig.send(&[i; 10]);
    }
    assert_eq!(
        rig.link().outstanding_sdus.len(),
        3,
        "extended-AL peer must allow all three SDUs concurrent"
    );
    assert_eq!(rig.link().pending_sdus.len(), 0, "nothing buffered");
}

#[test]
fn al_sdu_for_unknown_link_is_silently_dropped() {
    let mut rig = Rig::new();
    rig.send(b"no link");
    assert!(
        rig.drain().is_empty(),
        "SAP request for unknown link must produce no output"
    );
    assert!(rig.llc.al_links.is_empty(), "no link should have been created");
}

#[test]
fn al_data_req_via_sap_completes_full_tx_cycle() {
    let mut rig = Rig::new();
    rig.establish_link();
    rig.send(b"full cycle sdu");
    let msgs = rig.tick_at(TdmaTime::default());
    assert!(umac_pdus(&msgs) > 0, "AL-DATA PDUs must reach UMAC after SAP request");
    assert_eq!(rig.link().outstanding_sdus.len(), 1, "one SDU must be in the TX window");
    assert_eq!(rig.link().outstanding_sdus[0].n_s, 0, "first SDU must have N(S)=0");
    rig.one_tick(TdmaTime::default(), ack(AlAckAlRnrKind::Ack));
    assert_eq!(rig.link().outstanding_sdus.len(), 0, "ACK must advance the TX window");
}

#[test]
fn al_tx_window_config_respected() {
    let mut w2 = Rig::with(|c| c.tx_window = 2);
    let mut w3 = Rig::new();
    for rig in [&mut w2, &mut w3] {
        rig.one_tick(TdmaTime::default(), reconnect_propose());
        rig.drain();
    }
    assert_eq!(w2.link().tx_window, 2);
    assert_eq!(w3.link().tx_window, 3);
    for rig in [&mut w2, &mut w3] {
        rig.tick_start(TdmaTime::default());
        for _ in 0..3 {
            rig.send(b"AL-5 test payload");
        }
    }
    assert_eq!(
        w2.link().outstanding_sdus.len(),
        2,
        "w2: exactly 2 outstanding (= tx_window)"
    );
    assert_eq!(w2.link().pending_sdus.len(), 1, "w2: 3rd SDU buffered in pending");
    assert_eq!(
        w3.link().outstanding_sdus.len(),
        3,
        "w3: 3 outstanding (window not full)"
    );
    assert_eq!(w3.link().pending_sdus.len(), 0, "w3: nothing buffered");
}

#[test]
fn al_data_non_ar_contiguous_window_acks_next_expected() {
    let mut rig = Rig::new();
    rig.establish_link();
    for s_s in 0..3u8 {
        rig.tick_start(TdmaTime::default());
        rig.rx_segment(&make_al_data_fragment(false, 0, s_s));
    }
    rig.tick_end();
    let ack = extract_al_ack(rig.drain());
    assert_eq!(ack.kind, AlAckAlRnrKind::Ack);
    assert_eq!(ack.first_block.n_r, 0, "ACK must reference N(S)=0");
    assert_eq!(
        ack.first_block.ack_length,
        AckLength::Segments(1),
        "cumulative ACK uses Segments(1) shape"
    );
    assert_eq!(
        ack.first_block.s_r,
        Some(SR::OldestNotReceived(3)),
        "S(R) must be the next expected S(S) (=3), not RestOfSduReceived"
    );
    assert_ne!(
        ack.first_block.s_r,
        Some(SR::RestOfSduReceived),
        "S(R) must never be RestOfSduReceived while reassembly is incomplete"
    );
}

#[test]
fn al_data_ar_immediate_ack_uses_next_expected_sr() {
    let mut rig = Rig::new();
    rig.establish_link();
    rig.tick_start(TdmaTime::default());
    rig.rx_segment(&make_al_data_fragment(true, 0, 0));
    let ack = extract_al_ack(rig.drain());
    assert_eq!(ack.kind, AlAckAlRnrKind::Ack);
    assert_eq!(ack.first_block.n_r, 0);
    assert_eq!(ack.first_block.ack_length, AckLength::Segments(1));
    assert_eq!(
        ack.first_block.s_r,
        Some(SR::OldestNotReceived(1)),
        "after receiving s_s=0 only, next expected is 1"
    );
}

#[test]
fn al_data_gap_acks_oldest_missing() {
    let mut rig = Rig::new();
    rig.establish_link();
    rig.tick_start(TdmaTime::default());
    rig.rx_segment(&make_al_data_fragment(false, 0, 0));
    rig.rx_segment(&make_al_data_fragment(false, 0, 2));
    rig.tick_end();
    let ack = extract_al_ack(rig.drain());
    assert_eq!(ack.first_block.n_r, 0);
    assert_eq!(ack.first_block.ack_length, AckLength::Segments(1));
    assert_eq!(
        ack.first_block.s_r,
        Some(SR::OldestNotReceived(1)),
        "with gap at s_s=1, ACK must ask for s_s=1"
    );
}

#[test]
fn al_setup_reset_clears_stale_reassembler() {
    let mut rig = Rig::new();
    rig.establish_link();
    let ts = TdmaTime::default();
    rig.prime_stale_reassembler(ts);
    let reset_msgs = rig.send_setup(make_setup_pdu(SetupReport::Reset));
    assert_eq!(
        rig.link().phase,
        AlPhase::Established,
        "link must remain Established after peer re-setup"
    );
    assert!(
        rig.link().reassemblers.is_empty(),
        "reassemblers must be cleared on AL-SETUP re-establishment"
    );
    assert!(umac_pdus(&reset_msgs) > 0, "AL-SETUP echo must be emitted");
    let sdu = b"post-reset".to_vec();
    let ind = rig.feed_fresh_single_pdu_sdu(ts, &sdu);
    assert_eq!(ind.tl_sdu, bits_of(&sdu));
    assert!(ind.fcs_ok);
}

#[test]
fn al_reconnect_propose_clears_stale_reassembler() {
    let mut rig = Rig::new();
    rig.establish_link();
    let ts = TdmaTime::default();
    rig.prime_stale_reassembler(ts);
    rig.one_tick(ts, reconnect_propose());
    let msgs = rig.drain();
    assert_eq!(
        rig.link().phase,
        AlPhase::Established,
        "link must remain Established after AL-RECONNECT accept"
    );
    assert!(
        rig.link().reassemblers.is_empty(),
        "reassemblers must be cleared on AL-RECONNECT(Propose) accept"
    );
    assert!(umac_pdus(&msgs) > 0, "AL-RECONNECT Accept must be emitted");
    let sdu = b"post-reconnect".to_vec();
    let ind = rig.feed_fresh_single_pdu_sdu(ts, &sdu);
    assert_eq!(ind.tl_sdu, bits_of(&sdu));
    assert!(ind.fcs_ok);
}

#[test]
fn al_data_after_completed_sdu_still_works_via_natural_advancement() {
    let mut rig = Rig::with(|c| c.dedupe_completed_ns = false);
    rig.establish_link();
    let ts = TdmaTime::default();
    let sdu1 = b"first".to_vec();
    let ind1 = rig.feed_fresh_single_pdu_sdu(ts, &sdu1);
    assert_eq!(ind1.tl_sdu, bits_of(&sdu1));
    assert!(
        rig.link().reassemblers.is_empty(),
        "completed SDU must remove its reassembler slot"
    );
    let sdu2 = b"second".to_vec();
    let ind2 = rig.feed_fresh_single_pdu_sdu(ts, &sdu2);
    assert_eq!(ind2.tl_sdu, bits_of(&sdu2));
}

#[test]
fn al_tx_no_retx_before_t252() {
    let mut rig = Rig::new();
    let t0 = rig.establish_and_tx_one_sdu(3, b"h16 keepalive");
    let t1 = t0.add_timeslots(T251_SENDER_RETRY_TIMER as i32 + 1);
    assert!(
        (T251_SENDER_RETRY_TIMER + 1) < T252_ACK_WAITING_TIMER,
        "test invariant: T.251+1 must be strictly less than T.252"
    );
    let msgs = rig.tick_at(t1);
    let link = rig.link();
    assert_eq!(link.outstanding_sdus.len(), 1, "SDU must still be outstanding before T.252");
    assert_eq!(link.outstanding_sdus[0].retx_count, 0, "no retransmission before T.252");
    assert_eq!(
        umac_pdus(&msgs),
        0,
        "no TmaUnitdataReq must be emitted before T.252 elapses"
    );
}

#[test]
fn al_tx_retransmits_after_t252() {
    let mut rig = Rig::new();
    let t0 = rig.establish_and_tx_one_sdu(3, b"h16 retx");
    let msgs = rig.tick_at(t0.add_timeslots(T252_ACK_WAITING_TIMER as i32 + 1));
    let link = rig.link();
    assert_eq!(
        link.outstanding_sdus.len(),
        1,
        "SDU must still be outstanding (retxed, not dropped)"
    );
    assert!(
        link.outstanding_sdus[0].retx_count >= 1,
        "retx_count must advance after T.252 elapses; got {}",
        link.outstanding_sdus[0].retx_count
    );
    assert!(
        umac_pdus(&msgs) > 0,
        "a TmaUnitdataReq retransmission must be emitted after T.252 elapses"
    );
}

#[test]
fn al_tx_sdu_dropped_after_t252_when_max_retx_zero() {
    let mut rig = Rig::new();
    let t0 = rig.establish_and_tx_one_sdu_full(0, 0, b"h16 drop");
    rig.tick_at(t0.add_timeslots(T251_SENDER_RETRY_TIMER as i32 + 1));
    assert_eq!(
        rig.link().outstanding_sdus.len(),
        1,
        "SDU must survive until T.252 has elapsed"
    );
    rig.tick_at(t0.add_timeslots(T252_ACK_WAITING_TIMER as i32 + 1));
    assert_eq!(
        rig.link().outstanding_sdus.len(),
        0,
        "SDU must be dropped once T.252 elapsed and effective_max_retx is 0"
    );
}

#[test]
fn al_ack_within_t252_prevents_drop() {
    let mut rig = Rig::new();
    let t0 = rig.establish_and_tx_one_sdu(0, b"h16 late ack");
    let t_ack = t0.add_timeslots(T251_SENDER_RETRY_TIMER as i32 + 2);
    assert!(
        (T251_SENDER_RETRY_TIMER + 2) < T252_ACK_WAITING_TIMER,
        "test invariant: T.251+2 must still be inside the T.252 window"
    );
    rig.one_tick(t_ack, ack(AlAckAlRnrKind::Ack));
    assert_eq!(
        rig.link().outstanding_sdus.len(),
        0,
        "AL-ACK arriving inside the T.252 window must clear the SDU without a drop"
    );
}

#[test]
fn al_tx_single_frag_baseline_unchanged_h17() {
    let mut rig = Rig::new();
    let t0 = rig.establish_and_tx_one_sdu(3, b"h17 baseline");
    rig.tick_at(t0.add_timeslots(T252_ACK_WAITING_TIMER as i32 - 1));
    assert_eq!(
        rig.link().outstanding_sdus[0].retx_count,
        0,
        "no retx before T.252 (H16 semantics preserved)"
    );
    let msgs = rig.tick_at(t0.add_timeslots(T252_ACK_WAITING_TIMER as i32 + 1));
    assert!(
        rig.link().outstanding_sdus[0].retx_count >= 1,
        "retx must fire after T.252 for single-frag SDU (baseline)"
    );
    assert!(umac_pdus(&msgs) > 0, "retransmission PDU must be emitted");
}

#[test]
fn al_tx_multifrag_no_drop_when_ack_arrives_after_last_frag_h17() {
    let mut rig = Rig::new();
    let t0 = TdmaTime::default();
    rig.llc.al_segment_payload_bits = 400;
    rig.send_setup(make_setup_pdu_with_retx(SetupReport::ServiceDefinition, 0));
    rig.send(&multifrag_payload());
    rig.drain();
    assert_eq!(rig.link().outstanding_sdus.len(), 1);
    let seg_count = rig.link().outstanding_sdus[0].pdus.len();
    assert!(seg_count >= 4, "test payload must produce at least 4 fragments (got {seg_count})");
    assert!(
        rig.link().outstanding_sdus[0].last_segment_tx_at.is_none(),
        "T.252 must not start before any fragment is aired"
    );

    let t_frag_first = t0.add_timeslots((T252_ACK_WAITING_TIMER as i32) / 6);
    rig.mark_segment_transmitted(0);
    rig.tick_at(t_frag_first);
    assert!(
        rig.link().outstanding_sdus[0].last_segment_tx_at.is_none(),
        "last_segment_tx_at must remain None until every unacked fragment is Transmitted"
    );
    assert_eq!(rig.link().outstanding_sdus[0].retx_count, 0);

    for idx in 0..seg_count {
        rig.mark_segment_transmitted(idx);
    }
    let t_last_frag = t0.add_timeslots((T252_ACK_WAITING_TIMER as i32) - 10);
    rig.tick_at(t_last_frag);
    assert!(
        rig.link().outstanding_sdus[0].last_segment_tx_at.is_some(),
        "last_segment_tx_at must be stamped once every fragment is Transmitted"
    );
    assert_eq!(
        rig.link().outstanding_sdus.len(),
        1,
        "multi-fragment SDU must NOT be dropped before T.252 from last-frag TX"
    );
    assert_eq!(
        rig.link().outstanding_sdus[0].retx_count,
        0,
        "no retx yet: T.252 measured from last-frag TX has not elapsed"
    );

    let t_ack = t_last_frag.add_timeslots((T252_ACK_WAITING_TIMER as i32) / 2);
    rig.one_tick(t_ack, ack(AlAckAlRnrKind::Ack));
    assert_eq!(
        rig.link().outstanding_sdus.len(),
        0,
        "AL-ACK arriving within T.252 of the last fragment's TX must clear the SDU"
    );
}

#[test]
fn al_tx_multifrag_exhausts_after_t252_past_last_frag_h17() {
    let mut rig = Rig::new();
    let t0 = TdmaTime::default();
    rig.llc.al_segment_payload_bits = 400;
    rig.send_setup(make_setup_pdu_with_both_retx(SetupReport::ServiceDefinition, 0, 0));
    rig.send(&multifrag_payload());
    rig.drain();
    let seg_count = rig.link().outstanding_sdus[0].pdus.len();
    assert!(seg_count >= 4);
    for idx in 0..seg_count {
        rig.mark_segment_transmitted(idx);
    }
    rig.tick_at(t0.add_timeslots(1));
    let clock_start = rig.link().outstanding_sdus[0]
        .last_segment_tx_at
        .expect("clock must be stamped once every reporter is Transmitted");
    rig.tick_at(clock_start.add_timeslots(T252_ACK_WAITING_TIMER as i32 - 1));
    assert_eq!(
        rig.link().outstanding_sdus.len(),
        1,
        "SDU must survive until T.252 elapses past the last fragment's TX"
    );
    rig.tick_at(clock_start.add_timeslots(T252_ACK_WAITING_TIMER as i32 + 1));
    assert_eq!(
        rig.link().outstanding_sdus.len(),
        0,
        "SDU must be dropped once T.252 measured from last-frag TX elapses (max_retx=0)"
    );
}

#[test]
fn al_tx_multifrag_retx_resets_last_segment_tx_at_h17() {
    let mut rig = Rig::new();
    let t0 = TdmaTime::default();
    rig.llc.al_segment_payload_bits = 400;
    rig.send_setup(make_setup_pdu_with_retx(SetupReport::ServiceDefinition, 2));
    rig.send(&multifrag_payload());
    rig.drain();
    let seg_count = rig.link().outstanding_sdus[0].pdus.len();
    for idx in 0..seg_count {
        rig.mark_segment_transmitted(idx);
    }
    rig.tick_at(t0.add_timeslots(1));
    let clock_start =
        rig.link().outstanding_sdus[0].last_segment_tx_at.expect("clock stamped");

    let t_retx = clock_start.add_timeslots(T252_ACK_WAITING_TIMER as i32 + 1);
    let msgs = rig.tick_at(t_retx);
    let link = rig.link();
    assert_eq!(link.outstanding_sdus.len(), 1, "SDU must be retxed, not dropped");
    assert!(link.outstanding_sdus[0].retx_count >= 1, "retx_count must advance");
    assert!(
        link.outstanding_sdus[0].last_segment_tx_at.is_none(),
        "retx must clear last_segment_tx_at so the T.252 clock restarts"
    );
    for rep in &link.outstanding_sdus[0].segment_reporters {
        let rep = rep.as_ref().expect("reporter present after retx");
        assert_eq!(
            rep.state,
            TxState::Pending,
            "retx replaces reporters with fresh Pending ones"
        );
    }
    assert!(umac_pdus(&msgs) > 0, "retransmission PDUs emitted");

    rig.tick_at(t_retx.add_timeslots(T252_ACK_WAITING_TIMER as i32 + 1));
    assert_eq!(
        rig.link().outstanding_sdus.len(),
        1,
        "with reporters still Pending, T.252 clock must not run, so no drop"
    );
    assert_eq!(
        rig.link().outstanding_sdus[0].retx_count,
        1,
        "no second retx: clock did not restart until retx tail is Transmitted"
    );
}

#[test]
fn h36_delivery_hook_fires_on_entire_sdu_ack() {
    let mut rig = Rig::new();
    rig.llc.set_delivery_hook(AlDeliveryHook::new());
    rig.establish_link();
    rig.send(b"hook");
    rig.drain();
    rig.one_tick(TdmaTime::default(), ack(AlAckAlRnrKind::Ack));
    let got: Vec<AlDeliveryEvent> = rig.llc.take_deliveries();
    assert_eq!(got.len(), 1, "exactly one delivery event expected, got {:?}", got);
    let ev = &got[0];
    assert_eq!(ev.outcome, AlDeliveryOutcome::Delivered);
    assert_eq!(ev.n_s, 0);
    assert_eq!(ev.ssi, SSI);
    assert_eq!(ev.link_id, LINK_ID);
    assert_eq!(ev.endpoint_id, ENDPOINT_ID);
    assert_eq!(ev.n261, N261);
}

#[test]
fn h36_delivery_hook_fires_on_fire_and_forget_drop() {
    let mut rig = Rig::new();
    rig.llc.set_delivery_hook(AlDeliveryHook::new());
    let t0 = rig.establish_and_tx_one_sdu_full(0, 0, b"drop");
    rig.tick_at(t0.add_timeslots(T252_ACK_WAITING_TIMER as i32 + 1));
    let got = rig.llc.take_deliveries();
    assert_eq!(got.len(), 1, "exactly one drop event expected, got {:?}", got);
    let ev = &got[0];
    assert_eq!(ev.outcome, AlDeliveryOutcome::DroppedFireAndForget);
    assert_eq!(ev.n_s, 0);
    assert_eq!(ev.ssi, SSI);
}

#[test]
fn h36_ack_path_works_without_hook() {
    let mut rig = Rig::new();
    rig.establish_link();
    rig.send(b"nohook");
    rig.drain();
    rig.one_tick(TdmaTime::default(), ack(AlAckAlRnrKind::Ack));
    assert_eq!(rig.link().outstanding_sdus.len(), 0);
    assert!(rig.llc.take_deliveries().is_empty());
}

#[test]
fn al_tx_retx_count_matches_n273_no_off_by_one() {
    let mut rig = Rig::new();
    let t0 = rig.establish_and_tx_one_sdu_full(3, 15, b"h44 p12");
    let mut t = t0;
    for expected_retx in 1..=3u8 {
        t = t.add_timeslots(T252_ACK_WAITING_TIMER as i32 + 1);
        rig.tick_at(t);
        assert_eq!(
            rig.link().outstanding_sdus.len(),
            1,
            "SDU must survive retx #{}",
            expected_retx
        );
        assert_eq!(
            rig.link().outstanding_sdus[0].retx_count, expected_retx,
            "retx_count must equal number of retx performed so far"
        );
        rig.mark_all_segments_transmitted_at(t);
    }
    t = t.add_timeslots(T252_ACK_WAITING_TIMER as i32 + 1);
    rig.tick_at(t);
    assert_eq!(
        rig.link().outstanding_sdus.len(),
        0,
        "SDU must be dropped once N.273 retransmissions have been performed"
    );
}

#[test]
fn al_tx_max_segment_retx_caps_retransmissions() {
    let mut rig = Rig::new();
    let t0 = rig.establish_and_tx_one_sdu_full(5, 1, b"h44 p7");
    let t1 = t0.add_timeslots(T252_ACK_WAITING_TIMER as i32 + 1);
    rig.tick_at(t1);
    assert_eq!(rig.link().outstanding_sdus.len(), 1, "SDU must survive retx #1");
    assert_eq!(rig.link().outstanding_sdus[0].retx_count, 1);
    rig.mark_all_segments_transmitted_at(t1);
    rig.tick_at(t1.add_timeslots(T252_ACK_WAITING_TIMER as i32 + 1));
    assert_eq!(
        rig.link().outstanding_sdus.len(),
        0,
        "SDU must drop once N.274 (max_segment_retx) is reached, even if N.273 permits more"
    );
}

#[test]
fn al_tx_max_segment_retx_zero_is_fire_and_forget() {
    let mut rig = Rig::new();
    let t0 = rig.establish_and_tx_one_sdu_full(5, 0, b"h44 p7 nrx");
    rig.tick_at(t0.add_timeslots(T252_ACK_WAITING_TIMER as i32 + 1));
    assert_eq!(
        rig.link().outstanding_sdus.len(),
        0,
        "with max_segment_retx=0 the SDU must be released without retransmission"
    );
}

#[test]
fn al_tx_h46_mtp6550_n273_zero_ack_uses_seg_cap() {
    let mut rig = Rig::with(|c| c.n273_zero_ack_uses_seg_cap = true);
    let t0 = rig.establish_and_tx_one_sdu_full(0, 3, b"h46 mtp6550");
    let mut t = t0;
    for expected_retx in 1..=3u8 {
        t = t.add_timeslots(T252_ACK_WAITING_TIMER as i32 + 1);
        rig.tick_at(t);
        assert_eq!(
            rig.link().outstanding_sdus.len(),
            1,
            "H46: SDU must survive retx #{} under N.273=0+Ack coercion",
            expected_retx
        );
        assert_eq!(
            rig.link().outstanding_sdus[0].retx_count, expected_retx,
            "H46: retx_count must equal N.274-bounded attempts so far"
        );
        rig.mark_all_segments_transmitted_at(t);
    }
    t = t.add_timeslots(T252_ACK_WAITING_TIMER as i32 + 1);
    rig.tick_at(t);
    assert_eq!(
        rig.link().outstanding_sdus.len(),
        0,
        "H46: SDU must drop once N.274 attempts are exhausted"
    );
}

#[test]
fn n273_zero_is_fire_and_forget_by_default() {
    let mut rig = Rig::new();
    rig.llc.set_delivery_hook(AlDeliveryHook::new());
    let t0 = rig.establish_and_tx_one_sdu_full(0, 3, b"x");
    rig.tick_at(t0.add_timeslots(T252_ACK_WAITING_TIMER as i32 + 1));
    assert_eq!(rig.link().outstanding_sdus.len(), 0);
    let got = rig.llc.take_deliveries();
    assert_eq!(got[0].outcome, AlDeliveryOutcome::DroppedFireAndForget);
}

#[test]
fn exhausted_sdu_is_reported_and_the_link_stays() {
    let mut rig = Rig::new();
    rig.llc.set_delivery_hook(AlDeliveryHook::new());
    let t0 = rig.establish_and_tx_one_sdu_full(1, 1, b"x");
    let t1 = t0.add_timeslots(T252_ACK_WAITING_TIMER as i32 + 1);
    rig.tick_at(t1);
    rig.mark_all_segments_transmitted_at(t1);
    let msgs = rig.tick_at(t1.add_timeslots(T252_ACK_WAITING_TIMER as i32 + 1));
    assert!(msgs.is_empty(), "nothing is disconnected: {msgs:?}");
    assert_eq!(rig.link().phase, AlPhase::Established);
    let got = rig.llc.take_deliveries();
    assert_eq!(got.len(), 1);
    assert_eq!(got[0].outcome, AlDeliveryOutcome::DroppedRetxExhausted);
}

#[test]
fn repeated_sdu_is_confirmed_and_not_delivered_again() {
    let mut rig = Rig::new();
    rig.establish_link();
    let out = segment_sdu(b"once", 400, 0);
    rig.rx_segment(&out[0]);
    rig.drain();
    assert_eq!(
        rig.llc.data_reassembly(SSI, LINK_ID, ENDPOINT_ID, 0),
        Reassembly::Skip
    );
    rig.rx_segment(&out[0]);
    let msgs = rig.drain();
    assert!(!msgs.iter().any(|m| matches!(m.msg, SapMsgInner::TlaTlDataIndAl(_))));
    assert_eq!(
        extract_al_ack(msgs).first_block.ack_length,
        AckLength::EntireSduReceived
    );
}

#[test]
fn repeated_setup_gets_the_same_echo_and_clears_reception_only() {
    let mut rig = Rig::new();
    let first = rig.establish_link();
    rig.send(b"in flight");
    rig.drain();
    rig.prime_stale_reassembler(TdmaTime::default());
    let second = rig.establish_link();
    assert_eq!(first.len(), 1);
    let echo = |msgs: &[SapMsg]| {
        msgs.iter().find_map(|m| match &m.msg {
            SapMsgInner::TmaUnitdataReq(r) => match r.pdu {
                LlcPdu::AlSetup(s) => Some(s),
                _ => None,
            },
            _ => None,
        })
    };
    assert!(echo(&first).is_some());
    assert_eq!(echo(&first), echo(&second));
    assert!(rig.link().reassemblers.is_empty());
    assert_eq!(rig.link().outstanding_sdus.len(), 1);
}

#[test]
fn dropped_segment_is_sent_again_at_once() {
    let mut rig = Rig::new();
    rig.establish_link();
    rig.send(b"x");
    rig.drain();
    let id = rig.link().outstanding_sdus[0].segment_reporters[0].unwrap().id;
    rig.llc.on_tx_report(id, TxState::Discarded);
    let msgs = rig.tick_at(TdmaTime::default());
    assert_eq!(umac_pdus(&msgs), 1);
}

#[test]
fn refused_sdus_say_why() {
    let mut rig = Rig::new();
    let key = test_key();
    let one: Result<Vec<Vec<bool>>, SegmentationError> = Ok(vec![vec![true]]);
    assert_eq!(
        rig.llc.enqueue_al_sdu(&mut rig.queue, key, vec![1], one.clone()),
        Err(AlError::UnknownLink(key))
    );
    rig.establish_link();
    assert_eq!(
        rig.llc.enqueue_al_sdu(&mut rig.queue, key, vec![0; 257], one.clone()),
        Err(AlError::SduTooLarge { got: 257, max: 256 })
    );
    assert_eq!(
        rig.llc.enqueue_al_sdu(&mut rig.queue, key, vec![], Err(SegmentationError::EmptySdu)),
        Err(AlError::SegmentationFailed(SegmentationError::EmptySdu))
    );
    assert_eq!(rig.llc.enqueue_al_sdu(&mut rig.queue, key, vec![1], one.clone()), Ok(()));
    assert_eq!(rig.llc.enqueue_al_sdu(&mut rig.queue, key, vec![1], one.clone()), Ok(()));
    assert_eq!(rig.link().pending_sdus.len(), 1, "a full window makes the SDU wait");
    rig.llc.al_links.get_mut(&key).unwrap().phase = AlPhase::Idle;
    assert_eq!(
        rig.llc.enqueue_al_sdu(&mut rig.queue, key, vec![1], one),
        Err(AlError::NotEstablished)
    );
}

#[test]
fn unacknowledged_sdu_is_delivered_without_confirmation() {
    let mut rig = Rig::new();
    rig.establish_link();
    rig.rx(RxPdu::AlUdata {
        n_s: 0,
        unack_feed: AlUnackFeed::Complete { sdu: bits_of(b"hi") },
    });
    let msgs = rig.drain();
    assert_eq!(msgs.len(), 1);
    match &msgs[0].msg {
        SapMsgInner::TlaTlUnitdataIndAl(ind) => assert_eq!(ind.tl_sdu, bits_of(b"hi")),
        other => panic!("unexpected {other:?}"),
    }
}

#[test]
fn acknowledgement_ends_flow_control() {
    let mut rig = Rig::new();
    rig.establish_link();
    rig.send(b"x");
    rig.drain();
    rig.rx(ack(AlAckAlRnrKind::Rnr));
    assert_eq!(rig.link().phase, AlPhase::FlowControlled);
    rig.rx(ack(AlAckAlRnrKind::Ack));
    assert_eq!(rig.link().phase, AlPhase::Established);
}

#[test]
fn queue_is_purged_on_repeated_setup_only() {
    let mut rig = Rig::with(|c| c.cache_setup_echo = false);
    let purges = |msgs: &[SapMsg]| {
        msgs.iter()
            .filter(|m| matches!(m.msg, SapMsgInner::TmaPurgeByAddressReq { .. }))
            .count()
    };
    let first = rig.establish_link();
    assert_eq!(purges(&first), 0);
    let second = rig.establish_link();
    assert_eq!(purges(&second), 1);
    assert!(matches!(second[0].msg, SapMsgInner::TmaPurgeByAddressReq { issi: SSI }));
}

#[test]
fn unacknowledged_sdus_count_n_s_round_the_window() {
    let mut rig = Rig::new();
    rig.establish_link();
    assert_eq!(rig.link().tx_window, 3);
    let mut seen = Vec::new();
    for _ in 0..6 {
        seen.push(rig.link().next_n_s);
        let req = TlaReqAl {
            main_address: test_addr(),
            link_id: LINK_ID,
            endpoint_id: ENDPOINT_ID,
            al_link_number: N261,
            tl_sdu: vec![1],
            segments: Ok(vec![vec![true]]),
        };
        rig.llc.rx_prim(
            &mut rig.queue,
            SapMsg {
                sap: Sap::TlaSap,
                src: TetraEntity::Mle,
                dest: TetraEntity::Llc,
                msg: SapMsgInner::TlaTlUnitdataReqAl(req),
            },
        );
    }
    assert_eq!(seen, vec![0, 1, 2, 3, 0, 1]);
    rig.drain();
    rig.send(b"x");
    assert_eq!(rig.link().outstanding_sdus[0].n_s, 2);
    assert_eq!(rig.link().next_n_s, 3);
}

#[test]
fn setup_after_flow_control_starts_anew() {
    let mut rig = Rig::new();
    assert_eq!(rig.establish_link().len(), 1);
    rig.rx(ack(AlAckAlRnrKind::Rnr));
    assert_eq!(rig.link().last_setup_echo, None);
    rig.rx(ack(AlAckAlRnrKind::Ack));
    assert_eq!(rig.link().phase, AlPhase::Established);
    rig.send(b"in flight");
    rig.drain();
    let msgs = rig.establish_link();
    assert!(matches!(msgs[0].msg, SapMsgInner::TmaPurgeByAddressReq { issi: SSI }));
    assert_eq!(umac_pdus(&msgs), 1);
    assert!(rig.link().outstanding_sdus.is_empty());
    assert!(rig.link().last_setup_echo.is_some());
}

#[test]
fn link_that_falls_idle_forgets_its_echo() {
    let mut rig = Rig::new();
    rig.establish_link();
    rig.rx(RxPdu::AlReconnect(AlReconnect {
        advanced_link_service: AdvancedLinkService::Ack,
        advanced_link_number_n261: N261,
        reconnect_report: ReconnectReport::Reject,
    }));
    assert_eq!(rig.link().phase, AlPhase::Idle);
    assert_eq!(rig.link().last_setup_echo, None);
    rig.establish_link();
    {
        let link = rig.llc.al_links.get_mut(&test_key()).unwrap();
        link.phase = AlPhase::SetupPending;
        link.t_setup_start = Some(TdmaTime::default());
        link.setup_retries = u8::MAX;
    }
    rig.tick_at(TdmaTime::default().add_timeslots(T261_SETUP_WAITING_TIMER as i32 + 1));
    assert_eq!(rig.link().phase, AlPhase::Idle);
    assert_eq!(rig.link().last_setup_echo, None);
}

#[test]
fn waiting_sdus_go_out_before_retransmissions() {
    let mut rig = Rig::new();
    rig.send_setup(make_setup_pdu_extended(SetupReport::ServiceDefinition));
    rig.llc.set_delivery_hook(AlDeliveryHook::new());
    for sdu in [b"0", b"1", b"2", b"3"] {
        rig.send(sdu);
    }
    rig.drain();
    assert_eq!(rig.link().outstanding_sdus.len(), 3);
    assert_eq!(rig.link().pending_sdus.len(), 1);
    rig.mark_all_segments_transmitted_at(TdmaTime::default());
    rig.rx(ack(AlAckAlRnrKind::Ack));
    assert_eq!(rig.link().outstanding_sdus.len(), 2);
    rig.drain();
    let late = TdmaTime::default().add_timeslots(T252_ACK_WAITING_TIMER as i32 + 1);
    let sent: Vec<Vec<bool>> = rig
        .tick_at(late)
        .into_iter()
        .filter_map(|m| match m.msg {
            SapMsgInner::TmaUnitdataReq(r) => match r.pdu {
                LlcPdu::AlSegment(bits) => Some(bits[..8].to_vec()),
                _ => None,
            },
            _ => None,
        })
        .collect();
    assert_eq!(sent, vec![bits_of(b"3"), bits_of(b"1"), bits_of(b"2")]);
    assert!(rig.link().pending_sdus.is_empty());
}

#[test]
fn silent_peer_gets_each_retransmission_and_one_event() {
    for (n273, n274, times) in [(3, 15, 3), (5, 2, 2), (2, 2, 2), (4, 0, 0)] {
        let mut rig = Rig::new();
        rig.llc.set_delivery_hook(AlDeliveryHook::new());
        rig.send_setup(make_setup_pdu_with_both_retx(
            SetupReport::ServiceDefinition,
            n273,
            n274,
        ));
        rig.send(b"anyone there");
        rig.drain();
        let mut now = TdmaTime::default();
        let mut sends = 0;
        for _ in 0..times + 3 {
            let ids: Vec<_> = rig
                .link()
                .outstanding_sdus
                .iter()
                .flat_map(|s| s.segment_reporters.iter().flatten().map(|r| r.id))
                .collect();
            for id in ids {
                rig.llc.on_tx_report(id, TxState::Transmitted);
            }
            assert_eq!(umac_pdus(&rig.tick_at(now)), 0);
            now = now.add_timeslots(T252_ACK_WAITING_TIMER as i32 - 1);
            assert_eq!(umac_pdus(&rig.tick_at(now)), 0, "T.252 still runs");
            now = now.add_timeslots(1);
            if umac_pdus(&rig.tick_at(now)) > 0 {
                sends += 1;
            }
        }
        assert_eq!(sends, times);
        let got = rig.llc.take_deliveries();
        assert_eq!(got.len(), 1);
        let expected = if times == 0 {
            AlDeliveryOutcome::DroppedFireAndForget
        } else {
            AlDeliveryOutcome::DroppedRetxExhausted
        };
        assert_eq!(got[0].outcome, expected);
    }
}
