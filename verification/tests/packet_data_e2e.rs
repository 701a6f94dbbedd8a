use tetra_pd::ipv4::Ipv4Addr;
use tetra_pd::llc::config::{LlcConfig, LlcLimits};
use tetra_pd::llc::entity::Llc;
use tetra_pd::llc::pdus::SegmentationError;
use tetra_pd::pdch_allocator::PdchAllocator;
use tetra_pd::saps::{
    ChanAllocType, CmceChanAllocReq, Layer2Service, LtpdMleUnitdataInd, LtpdMleUnitdataReq,
    MessageQueue, Sap, SapMsg, SapMsgInner, SsiType, TetraAddress, TetraEntity, TlaReqAl, TlaReqBl,
    TmaUnitdataReq, TxParams, TxState, UlDlAssignment,
};
use tetra_pd::sec_llc::CfgAdvancedLink;
use tetra_pd::sec_packet_data::CfgPacketData;
use tetra_pd::sndcp::entity::{GatewayDownlink, GatewayUplink, Sndcp};
use tetra_pd::sndcp::pdus::{ActivatePdpContextAccept, ActivatePdpContextDemand, SnDownlink, SnUplink, Tia};
use tetra_pd::tdma::TdmaTime;

const TEST_ISSI: u32 = 1234;
const TEST_NSAPI: u8 = 3;
/// Slightly more than the ready timer.
const PAST_READY_TIMER: i32 = 4300;

/// The messages that one tick carried between the layers.
#[derive(Default)]
struct Seen {
    ltpd: Vec<LtpdMleUnitdataReq>,
    /// Requests for the acknowledged basic link.
    data_bl: usize,
    unitdata_bl: usize,
    /// Link, endpoint and number of each request for an advanced link.
    data_al: Vec<(u32, u32, u8)>,
    tma: Vec<TmaUnitdataReq>,
}

/// SNDCP, LLC and the channel allocator, with plain relays between them.
struct TestStack {
    sndcp: Sndcp,
    llc: Llc,
    pdch: PdchAllocator,
    queue: MessageQueue,
    /// Packets from the terminals, once the gateway is attached.
    gateway: Option<Vec<GatewayUplink>>,
    now: TdmaTime,
}

fn make_llc() -> Llc {
    Llc::new(LlcConfig {
        main_carrier: 1521,
        advanced_link: CfgAdvancedLink::default(),
        limits: LlcLimits {
            t251_sender_retry: 16,
            t252_ack_waiting: 36,
            t261_setup_waiting: 16,
            t263_disconnect_waiting: 16,
            t265_reconnect_waiting: 16,
            t271_not_ready_for_tx: 2592,
            t272_not_ready_for_rx: 1296,
            n251_bl_max_tlsdu_len_bits: 2595,
            n252_bl_max_retransmits: 3,
        },
    })
}

fn tx_params(packet_data_flag: bool, chan_alloc: Option<CmceChanAllocReq>) -> TxParams {
    TxParams {
        req_handle: 0,
        stealing_permission: false,
        subscriber_class: 0,
        air_interface_encryption: None,
        stealing_repeats_flag: None,
        data_category: None,
        chan_alloc,
        packet_data_flag,
    }
}

impl TestStack {
    fn new() -> TestStack {
        TestStack {
            sndcp: Sndcp::new(CfgPacketData { enabled: true, ..CfgPacketData::default() }),
            llc: make_llc(),
            pdch: PdchAllocator::new(300),
            queue: MessageQueue::new(),
            gateway: None,
            now: TdmaTime { h: 0, m: 1, f: 1, t: 1 },
        }
    }

    /// Hands a request of SNDCP to the LLC: acknowledged or not, on the link that it names.
    fn relay_down(&mut self, req: &LtpdMleUnitdataReq, seen: &mut Seen) {
        let msg = if let Some(al_link_number) = req.al_link_number {
            seen.data_al.push((req.link_id, req.endpoint_id, al_link_number));
            SapMsgInner::TlaTlDataReqAl(TlaReqAl {
                main_address: req.main_address,
                link_id: req.link_id,
                endpoint_id: req.endpoint_id,
                al_link_number,
                tl_sdu: vec![],
                segments: Err(SegmentationError::EmptySdu),
            })
        } else {
            let tla = TlaReqBl {
                main_address: req.main_address,
                link_id: req.link_id,
                endpoint_id: req.endpoint_id,
                params: tx_params(req.packet_data_flag, req.chan_alloc),
                fcs_flag: false,
                tl_sdu: vec![true, false, false],
                tx_reporter: None,
            };
            if req.layer2service == Layer2Service::Acknowledged {
                seen.data_bl += 1;
                SapMsgInner::TlaTlDataReqBl(tla)
            } else {
                seen.unitdata_bl += 1;
                SapMsgInner::TlaTlUnitdataReqBl(tla)
            }
        };
        let (sap, src, dest) = (Sap::TlaSap, TetraEntity::Mle, TetraEntity::Llc);
        self.llc.rx_prim(&mut self.queue, SapMsg { sap, src, dest, msg });
    }

    fn drain(&mut self, seen: &mut Seen) {
        while let Some(m) = self.queue.pop_front() {
            match m.msg {
                SapMsgInner::LtpdMleUnitdataReq(req) => {
                    self.relay_down(&req, seen);
                    seen.ltpd.push(req);
                }
                SapMsgInner::LtpdMleUnitdataInd(_) => self.sndcp.rx_prim(&mut self.queue, m),
                SapMsgInner::TmaUnitdataReq(req) => {
                    if req.params.packet_data_flag {
                        self.pdch.reserve(req.main_address.ssi, 0, self.now);
                    }
                    if let Some(reporter) = req.tx_reporter {
                        self.llc.on_tx_report(reporter.id, TxState::Transmitted);
                    }
                    seen.tma.push(req);
                }
                _ => {}
            }
        }
    }

    fn tick(&mut self) -> Seen {
        let mut seen = Seen::default();
        self.sndcp.tick_start(self.now);
        self.llc.tick_start(self.now);
        self.drain(&mut seen);
        let end = self.llc.tick_end(&mut self.queue);
        self.llc.finish_al_activity(&mut self.queue, end.al.msgs, &end.al.drops);
        self.drain(&mut seen);
        self.sndcp.tick_end();
        if let Some(gateway) = self.gateway.as_mut() {
            gateway.extend(self.sndcp.take_uplink());
        }
        self.now = self.now.add_timeslots(1);
        seen
    }

    /// Lets SNDCP take a PDU in over the basic link.
    fn inject(&mut self, pdu: SnUplink, issi: u32) {
        self.queue.push_back(make_uplink_ind(pdu, issi, 0, 0, None));
    }

    fn activate(&mut self) -> Ipv4Addr {
        self.inject(demand_dynamic(), TEST_ISSI);
        let seen = self.tick();
        accept_of(&seen.ltpd[0]).ip4_address.expect("ACCEPT must carry an IPv4 address")
    }
}

fn demand_dynamic() -> SnUplink {
    SnUplink::ActivatePdpContextDemand(ActivatePdpContextDemand {
        nsapi: TEST_NSAPI,
        atid: 1,
        ip_address: None,
        pco: None,
    })
}

fn make_uplink_ind(
    pdu: SnUplink,
    issi: u32,
    link_id: u32,
    endpoint_id: u32,
    al_link_number: Option<u8>,
) -> SapMsg {
    SapMsg {
        sap: Sap::TlpdSap,
        src: TetraEntity::Mle,
        dest: TetraEntity::Sndcp,
        msg: SapMsgInner::LtpdMleUnitdataInd(LtpdMleUnitdataInd {
            received_tetra_address: TetraAddress::new(issi, SsiType::Issi),
            link_id,
            endpoint_id,
            al_link_number,
            pdu,
        }),
    }
}

fn accept_of(req: &LtpdMleUnitdataReq) -> ActivatePdpContextAccept {
    match &req.pdu {
        SnDownlink::ActivatePdpContextAccept(a) => *a,
        other => panic!("expected ACCEPT PDU, got {other:?}"),
    }
}

/// An IPv4 packet with an ICMP message from `from` to `to` (last octets).
fn icmp(id: u8, from: u8, to: u8, kind: u8) -> Vec<u8> {
    vec![
        0x45, 0x00, 0x00, 0x1c, 0x00, id, 0x00, 0x00, 0x40, 0x01, 0x00, 0x00, 0xc0, 0xa8, 0x64,
        from, 0xc0, 0xa8, 0x64, to, kind, 0x00, 0x00, 0x00, 0x00, id, 0x00, 0x01,
    ]
}

#[test]
fn activate_uplink_downlink_deactivate() {
    let mut stack = TestStack::new();

    stack.inject(demand_dynamic(), TEST_ISSI);
    let phase1 = stack.tick();
    let ltpd_req = &phase1.ltpd[0];
    assert_eq!(ltpd_req.layer2service, Layer2Service::Acknowledged);
    assert!(!ltpd_req.packet_data_flag, "P1: ACCEPT is not IP data");
    assert_eq!(ltpd_req.main_address.ssi, TEST_ISSI, "P1: ACCEPT addressed to MS ISSI");
    let accept = accept_of(ltpd_req);
    assert_eq!(accept.nsapi, TEST_NSAPI, "P1: ACCEPT NSAPI must match demand");
    assert_eq!(accept.tia, Tia::Ipv4Dynamic);
    let allocated_ip = accept.ip4_address.expect("P1: ACCEPT must carry an IPv4 address");
    assert!(
        allocated_ip.to_bits() >= Ipv4Addr::new(192, 168, 100, 2).to_bits()
            && allocated_ip.to_bits() <= Ipv4Addr::new(192, 168, 100, 254).to_bits(),
        "P1: allocated IP {allocated_ip:?} must be within default pool"
    );
    assert_eq!(phase1.data_bl, 1);
    let tma_accept = &phase1.tma[0];
    assert_eq!(tma_accept.main_address.ssi, TEST_ISSI, "P1: TmaUnitdataReq SSI");
    assert!(!tma_accept.params.packet_data_flag, "P1: ACCEPT is signalling, not packet data");

    let icmp_echo_request = icmp(1, 2, 1, 8);
    stack.inject(
        SnUplink::Unitdata { nsapi: TEST_NSAPI, payload: icmp_echo_request.clone() },
        TEST_ISSI,
    );
    let phase2 = stack.tick();
    assert!(phase2.ltpd.is_empty(), "P2: uplink UNITDATA must NOT produce any downlink");
    let ul = stack.sndcp.take_uplink();
    assert_eq!(ul.len(), 1, "P2: no leftover uplink items");
    assert_eq!(ul[0].main_address.ssi, TEST_ISSI, "P2: gateway uplink SSI");
    assert_eq!(ul[0].nsapi, TEST_NSAPI, "P2: gateway uplink NSAPI");
    assert_eq!(ul[0].payload, icmp_echo_request, "P2: gateway uplink payload");
    assert!(stack.sndcp.uplink_ip_queue.is_empty());

    let icmp_echo_reply = icmp(1, 1, 2, 0);
    stack.sndcp.feed_downlink_ip(
        &mut stack.queue,
        GatewayDownlink { dest_ipv4: allocated_ip, payload: icmp_echo_reply.clone() },
    );
    let phase3 = stack.tick();
    let ltpd_ud_req = &phase3.ltpd[0];
    assert_eq!(ltpd_ud_req.layer2service, Layer2Service::Unacknowledged);
    assert!(ltpd_ud_req.packet_data_flag, "P3: packet_data_flag must be set for IP data");
    assert_eq!(phase3.unitdata_bl, 1);
    match &ltpd_ud_req.pdu {
        SnDownlink::Unitdata { nsapi, payload, .. } => {
            assert_eq!(*nsapi, TEST_NSAPI, "P3: UNITDATA NSAPI");
            assert_eq!(*payload, icmp_echo_reply, "P3: UNITDATA payload = echo reply");
        }
        other => panic!("P3: expected SN-UNITDATA, got {other:?}"),
    }
    let tma_ud = &phase3.tma[0];
    assert!(tma_ud.params.packet_data_flag, "P3: packet_data_flag must pass through LLC");
    assert_eq!(tma_ud.main_address.ssi, TEST_ISSI, "P3: TmaUnitdataReq PDCH SSI");
    assert!(stack.pdch.reservations.contains_key(&TEST_ISSI));

    stack.inject(SnUplink::DataTransmitRequest { nsapi: TEST_NSAPI }, TEST_ISSI);
    let phase35a = stack.tick();
    let ltpd_txr = &phase35a.ltpd[0];
    assert_eq!(ltpd_txr.layer2service, Layer2Service::Acknowledged);
    assert!(!ltpd_txr.packet_data_flag, "P3.5: TRANSMIT-RESPONSE is signalling, not IP data");
    match ltpd_txr.pdu {
        SnDownlink::DataTransmitResponse { nsapi, refused } => {
            assert_eq!(nsapi, TEST_NSAPI, "P3.5: TRANSMIT-RESPONSE NSAPI");
            assert_eq!(refused, None, "P3.5: TRANSMIT-RESPONSE must be accept=true");
        }
        ref other => panic!("P3.5: expected DataTransmitResponse, got {other:?}"),
    }
    assert_eq!(phase35a.data_bl, 1);
    let grant = ltpd_txr.chan_alloc.expect("P3.5: TRANSMIT-RESPONSE must carry a channel grant");
    assert_eq!(grant.alloc_type, ChanAllocType::Additional);
    assert_eq!(grant.ul_dl_assigned, UlDlAssignment::Both);

    let icmp_req2 = icmp(2, 2, 1, 8);
    stack.inject(
        SnUplink::Data { nsapi: TEST_NSAPI, n_pdu: icmp_req2.clone() },
        TEST_ISSI,
    );
    let phase35b = stack.tick();
    assert!(phase35b.ltpd.is_empty(), "P3.5: uplink SN-DATA must NOT produce any downlink");
    let ul_data = stack.sndcp.take_uplink();
    assert_eq!(ul_data.len(), 1, "P3.5: no leftover uplink items");
    assert_eq!(ul_data[0].main_address.ssi, TEST_ISSI, "P3.5: SN-DATA uplink SSI");
    assert_eq!(ul_data[0].nsapi, TEST_NSAPI, "P3.5: SN-DATA uplink NSAPI");
    assert_eq!(ul_data[0].payload, icmp_req2, "P3.5: SN-DATA uplink payload");

    let icmp_reply2 = icmp(2, 1, 2, 0);
    stack.sndcp.feed_downlink_ip_acknowledged(
        &mut stack.queue,
        GatewayDownlink { dest_ipv4: allocated_ip, payload: icmp_reply2.clone() },
    );
    let phase35c = stack.tick();
    let ltpd_data_dl = &phase35c.ltpd[0];
    assert_eq!(ltpd_data_dl.layer2service, Layer2Service::Acknowledged);
    assert!(ltpd_data_dl.packet_data_flag);
    match &ltpd_data_dl.pdu {
        SnDownlink::Data { nsapi, n_pdu, .. } => {
            assert_eq!(*nsapi, TEST_NSAPI, "P3.5: SN-DATA downlink NSAPI");
            assert_eq!(*n_pdu, icmp_reply2, "P3.5: SN-DATA downlink payload");
        }
        other => panic!("P3.5: expected SN-DATA, got {other:?}"),
    }
    assert_eq!(phase35c.data_bl, 1);

    stack.inject(SnUplink::DeactivatePdpContextDemand { nsapi: TEST_NSAPI }, TEST_ISSI);
    let phase7 = stack.tick();
    let ltpd_deact = &phase7.ltpd[0];
    assert_eq!(ltpd_deact.layer2service, Layer2Service::Acknowledged);
    match ltpd_deact.pdu {
        SnDownlink::DeactivatePdpContextAccept { nsapi } => {
            assert_eq!(nsapi, TEST_NSAPI, "P7: DEACTIVATE ACCEPT NSAPI");
        }
        ref other => panic!("P7: expected DEACTIVATE ACCEPT, got {other:?}"),
    }
    assert_eq!(phase7.data_bl, 1);

    stack.inject(
        SnUplink::ActivatePdpContextDemand(ActivatePdpContextDemand {
            nsapi: TEST_NSAPI,
            atid: 0,
            ip_address: Some(allocated_ip),
            pco: None,
        }),
        9999,
    );
    let phase7b = stack.tick();
    assert_eq!(
        accept_of(&phase7b.ltpd[0]).ip4_address,
        Some(allocated_ip),
        "P7-C: static re-alloc must yield the same IP (proves it was freed)"
    );
}

#[test]
fn standby_paging_lifecycle() {
    let mut stack = TestStack::new();
    let allocated_ip = stack.activate();

    for _ in 0..PAST_READY_TIMER {
        stack.tick();
    }

    let page_payload = vec![0xCA, 0xFE, 0xBA, 0xBE];
    stack.sndcp.feed_downlink_ip(
        &mut stack.queue,
        GatewayDownlink { dest_ipv4: allocated_ip, payload: page_payload.clone() },
    );
    let phase4 = stack.tick();
    let page_req = &phase4.ltpd[0];
    assert_eq!(page_req.layer2service, Layer2Service::Acknowledged);
    assert!(!page_req.packet_data_flag, "P4: PAGE REQUEST is not IP data");
    match page_req.pdu {
        SnDownlink::PageRequest { nsapi } => assert_eq!(nsapi, TEST_NSAPI),
        ref other => panic!("P4: expected PAGE REQUEST, got {other:?}"),
    }
    assert_eq!(phase4.data_bl, 1);
    assert!(!phase4.tma.is_empty(), "P4: LLC must produce TmaUnitdataReq for PAGE REQUEST");

    let second_payload = vec![0xDE, 0xAD, 0xBE, 0xEF];
    stack.sndcp.feed_downlink_ip(
        &mut stack.queue,
        GatewayDownlink { dest_ipv4: allocated_ip, payload: second_payload.clone() },
    );
    let phase5 = stack.tick();
    assert!(
        phase5.ltpd.is_empty(),
        "P5: second downlink while WaitForPageResponse must be queued, not sent"
    );

    stack.inject(SnUplink::PageResponse { nsapi: TEST_NSAPI }, TEST_ISSI);
    let phase6 = stack.tick();
    assert_eq!(phase6.ltpd.len(), 2, "P6: PAGE RESPONSE must drain 2 queued UNITDATA PDUs");
    for (i, req) in phase6.ltpd.iter().enumerate() {
        assert_eq!(
            req.layer2service,
            Layer2Service::Unacknowledged,
            "P6: drained UNITDATA[{i}] must be Unacknowledged"
        );
        assert!(req.packet_data_flag, "P6: drained UNITDATA[{i}] must carry packet_data_flag");
    }
    let payloads: Vec<Vec<u8>> = phase6
        .ltpd
        .iter()
        .map(|req| match &req.pdu {
            SnDownlink::Unitdata { payload, .. } => payload.clone(),
            other => panic!("P6: drained msg is not UNITDATA: {other:?}"),
        })
        .collect();
    assert_eq!(payloads[0], page_payload, "P6: first drained payload = page_payload");
    assert_eq!(payloads[1], second_payload, "P6: second drained payload = second_payload");
    assert_eq!(phase6.unitdata_bl, 2);
    assert_eq!(
        phase6.tma.iter().filter(|r| r.params.packet_data_flag).count(),
        2,
        "P6: LLC must produce 2 TmaUnitdataReq(packet_data_flag=true)"
    );
}

#[test]
fn al_uplink_sn_data_reaches_sndcp() {
    let mut stack = TestStack::new();
    stack.activate();
    let icmp_req = icmp(2, 2, 1, 8);
    stack.queue.push_back(make_uplink_ind(
        SnUplink::Data { nsapi: TEST_NSAPI, n_pdu: icmp_req.clone() },
        TEST_ISSI,
        0,
        0,
        Some(1),
    ));
    stack.tick();
    let ul = stack.sndcp.take_uplink();
    assert_eq!(ul.len(), 1);
    assert_eq!(ul[0].main_address.ssi, TEST_ISSI, "H12: uplink SSI");
    assert_eq!(ul[0].nsapi, TEST_NSAPI, "H12: uplink NSAPI");
    assert_eq!(ul[0].payload, icmp_req, "H12: uplink payload bytes");
}

#[test]
fn pd9_sndcp_drains_uplink_ip_queue_to_gateway_channel() {
    let mut stack = TestStack::new();
    stack.gateway = Some(Vec::new());
    stack.activate();
    assert!(
        stack.gateway.as_ref().unwrap().is_empty(),
        "PD-9: no uplink items expected pre-injection"
    );
    let ip_payload = icmp(1, 2, 1, 8);
    stack.queue.push_back(make_uplink_ind(
        SnUplink::Data { nsapi: TEST_NSAPI, n_pdu: ip_payload.clone() },
        TEST_ISSI,
        0,
        0,
        Some(1),
    ));
    stack.tick();
    let got = stack.gateway.as_ref().unwrap();
    assert_eq!(got.len(), 1, "PD-9: no additional uplink items expected");
    assert_eq!(got[0].main_address.ssi, TEST_ISSI, "PD-9: gateway uplink SSI");
    assert_eq!(got[0].nsapi, TEST_NSAPI, "PD-9: gateway uplink NSAPI");
    assert_eq!(got[0].payload, ip_payload, "PD-9: gateway uplink payload bytes");
    assert!(stack.sndcp.uplink_ip_queue.is_empty());
}

#[test]
fn pd9_sndcp_feeds_downlink_ip_from_gateway_channel_as_sn_data() {
    let mut stack = TestStack::new();
    let allocated_ip = stack.activate();
    let dl_payload = vec![
        0x45u8, 0x00, 0x00, 0x1c, 0, 2, 0, 0, 0x40, 0x01, 0, 0, 0xc0, 0xa8, 0x64, 0x01, 0xc0, 0xa8,
        0x64, 0x02, 0x00, 0x00, 0, 0, 0, 1, 0, 1,
    ];
    stack.sndcp.feed_gateway_downlink(
        &mut stack.queue,
        GatewayDownlink { dest_ipv4: allocated_ip, payload: dl_payload.clone() },
    );
    let seen = stack.tick();
    assert_eq!(seen.ltpd.len(), 1, "PD-9: expected exactly one acknowledged SN-DATA");
    let req = &seen.ltpd[0];
    assert!(req.packet_data_flag);
    assert_eq!(req.layer2service, Layer2Service::Acknowledged);
    assert_eq!(req.main_address.ssi, TEST_ISSI, "PD-9: downlink addressed to MS");
    match &req.pdu {
        SnDownlink::Data { nsapi, n_pdu, .. } => {
            assert_eq!(*nsapi, TEST_NSAPI, "PD-9: SN-DATA NSAPI matches context");
            assert_eq!(*n_pdu, dl_payload, "PD-9: SN-DATA N-PDU payload round-trip");
        }
        other => panic!("PD-9: expected SN-DATA, got {other:?}"),
    }
}

#[test]
fn pd_al_uplink_learns_al_link_and_downlink_uses_it() {
    let mut stack = TestStack::new();
    let allocated_ip = stack.activate();
    stack.queue.push_back(make_uplink_ind(
        SnUplink::Data { nsapi: TEST_NSAPI, n_pdu: icmp(2, 2, 1, 8) },
        TEST_ISSI,
        4,
        0,
        Some(4),
    ));
    stack.tick();
    assert_eq!(stack.sndcp.take_uplink().len(), 1, "H13: SNDCP must consume the AL SN-DATA");

    let icmp_reply = icmp(3, 1, 2, 0);
    stack.sndcp.feed_downlink_ip_acknowledged(
        &mut stack.queue,
        GatewayDownlink { dest_ipv4: allocated_ip, payload: icmp_reply.clone() },
    );
    let seen = stack.tick();
    let ltpd_dl = &seen.ltpd[0];
    assert_eq!(ltpd_dl.link_id, 4, "H13: downlink SN-DATA must ride the AL link_id (4)");
    assert_eq!(ltpd_dl.endpoint_id, 0, "H13: downlink endpoint_id matches AL");
    assert!(ltpd_dl.packet_data_flag, "H13: SN-DATA carries packet_data_flag");
    match &ltpd_dl.pdu {
        SnDownlink::Data { nsapi, n_pdu, .. } => {
            assert_eq!(*nsapi, TEST_NSAPI);
            assert_eq!(*n_pdu, icmp_reply);
        }
        other => panic!("H13: expected SN-DATA, got {other:?}"),
    }
    assert_eq!(ltpd_dl.al_link_number, Some(4));
    assert_eq!(seen.data_al, vec![(4, 0, 4)]);
    assert_eq!(seen.data_bl, 0, "H14: downlink SN-DATA must NOT fall back to the basic link");
}

#[test]
fn pd_downlink_falls_back_to_bl_when_no_al_link_yet() {
    let mut stack = TestStack::new();
    let allocated_ip = stack.activate();
    stack.sndcp.feed_downlink_ip_acknowledged(
        &mut stack.queue,
        GatewayDownlink { dest_ipv4: allocated_ip, payload: icmp(4, 1, 2, 0) },
    );
    let seen = stack.tick();
    let ltpd_dl = &seen.ltpd[0];
    assert_eq!(ltpd_dl.link_id, 0, "H13-fallback: BL link_id from ACTIVATE");
    assert_eq!(ltpd_dl.endpoint_id, 0, "H13-fallback: BL endpoint_id from ACTIVATE");
    assert_eq!(ltpd_dl.al_link_number, None);
    assert_eq!(seen.data_bl, 1);
}

#[test]
fn packet_data_flag_reaches_the_request_to_the_mac() {
    const ISSI: u32 = 7777;
    let mut llc = make_llc();
    let mut queue = MessageQueue::new();
    llc.tick_start(TdmaTime { h: 0, m: 1, f: 1, t: 1 });
    llc.rx_prim(
        &mut queue,
        SapMsg {
            sap: Sap::TlaSap,
            src: TetraEntity::Mle,
            dest: TetraEntity::Llc,
            msg: SapMsgInner::TlaTlUnitdataReqBl(TlaReqBl {
                main_address: TetraAddress::new(ISSI, SsiType::Issi),
                link_id: 0,
                endpoint_id: 0,
                params: tx_params(true, None),
                fcs_flag: false,
                tl_sdu: vec![true, false, true, false, true, false, true, false],
                tx_reporter: None,
            }),
        },
    );
    llc.tick_end(&mut queue);
    let mut flagged: Vec<u32> = Vec::new();
    while let Some(m) = queue.pop_front() {
        if let SapMsgInner::TmaUnitdataReq(req) = m.msg {
            assert!(req.params.packet_data_flag);
            flagged.push(req.main_address.ssi);
        }
    }
    assert_eq!(flagged, vec![ISSI]);
}
