use tetra_pd::ipv4::Ipv4Addr;
use tetra_pd::saps::{
    Layer2Service, LtpdMleUnitdataInd, LtpdMleUnitdataReq, MessageQueue, Sap, SapMsg, SapMsgInner,
    SsiType, TetraAddress, TetraEntity,
};
use tetra_pd::sec_packet_data::{CfgPacketData, CfgStaticLease};
use tetra_pd::sndcp::entity::{
    timer_expired, GatewayDownlink, PdpKey, PdpState, Sndcp, READY_TIMER_SLOTS,
    RESP_WAIT_TIMER_SLOTS, STANDBY_TIMER_SLOTS,
};
use tetra_pd::sndcp::pdus::{
    ActivatePdpContextAccept, ActivatePdpContextDemand, Pco, PcoEntry, ProtocolIdentity,
    RejectCause, SnDownlink, SnUplink, Tia, TransmitResponseRejectCause,
};
use tetra_pd::sndcp::pool::Ipv4Pool;
use tetra_pd::tdma::TdmaTime;

fn test_addr(ssi: u32) -> TetraAddress {
    TetraAddress::new(ssi, SsiType::Issi)
}

/// A terminal with a lease on 192.168.1.178.
const LEASED: u32 = 900_001;

/// A pool that hands out 192.168.1.180 to 192.168.1.190.
fn pool_config() -> CfgPacketData {
    CfgPacketData {
        ipv4_pool_base: Ipv4Addr::new(192, 168, 1, 176),
        ipv4_pool_prefix: 28,
        tun_addr: Ipv4Addr::new(192, 168, 1, 177),
        static_lease: vec![
            CfgStaticLease { issi: LEASED, ipv4: Ipv4Addr::new(192, 168, 1, 178) },
            CfgStaticLease { issi: 900_002, ipv4: Ipv4Addr::new(192, 168, 1, 179) },
        ],
        ..CfgPacketData::default()
    }
}

fn make_sndcp() -> (Sndcp, MessageQueue) {
    (Sndcp::new(pool_config()), MessageQueue::new())
}

fn make_ind(pdu: SnUplink, ssi: u32) -> SapMsg {
    SapMsg {
        sap: Sap::TlpdSap,
        src: TetraEntity::Mle,
        dest: TetraEntity::Sndcp,
        msg: SapMsgInner::LtpdMleUnitdataInd(LtpdMleUnitdataInd {
            received_tetra_address: test_addr(ssi),
            link_id: 0,
            endpoint_id: 0,
            al_link_number: None,
            pdu,
        }),
    }
}

/// A demand for a dynamic address.
fn demand_dynamic(nsapi: u8) -> ActivatePdpContextDemand {
    ActivatePdpContextDemand { nsapi, atid: 1, ip_address: None, pco: None }
}

fn demand_static(nsapi: u8, ip: Ipv4Addr) -> ActivatePdpContextDemand {
    ActivatePdpContextDemand { nsapi, atid: 0, ip_address: Some(ip), pco: None }
}

fn drain_queue(queue: &mut MessageQueue) -> Vec<SapMsg> {
    let mut out = Vec::new();
    while let Some(m) = queue.pop_front() {
        out.push(m);
    }
    out
}

fn rx(sndcp: &mut Sndcp, queue: &mut MessageQueue, ssi: u32, pdu: SnUplink) {
    sndcp.rx_prim(queue, make_ind(pdu, ssi));
}

/// Sends a demand and returns the first message that comes of it.
fn activate(
    sndcp: &mut Sndcp,
    queue: &mut MessageQueue,
    ssi: u32,
    demand: ActivatePdpContextDemand,
) -> Option<SapMsg> {
    rx(sndcp, queue, ssi, SnUplink::ActivatePdpContextDemand(demand));
    queue.pop_front()
}

fn unwrap_req(msg: SapMsg) -> LtpdMleUnitdataReq {
    match msg.msg {
        SapMsgInner::LtpdMleUnitdataReq(req) => req,
        other => panic!("expected LtpdMleUnitdataReq, got {other:?}"),
    }
}

fn unwrap_accept(msg: SapMsg) -> ActivatePdpContextAccept {
    match unwrap_req(msg).pdu {
        SnDownlink::ActivatePdpContextAccept(a) => a,
        other => panic!("expected ACCEPT, got {other:?}"),
    }
}

fn accepted_ip(msg: SapMsg) -> Ipv4Addr {
    unwrap_accept(msg).ip4_address.expect("no ip in ACCEPT")
}

fn unwrap_reject(msg: SapMsg) -> RejectCause {
    match unwrap_req(msg).pdu {
        SnDownlink::ActivatePdpContextReject { reject_cause, .. } => reject_cause,
        other => panic!("expected REJECT, got {other:?}"),
    }
}

fn state_of(sndcp: &Sndcp, ssi: u32, nsapi: u8) -> Option<PdpState> {
    sndcp.find_context(&PdpKey { ssi, nsapi }).map(|i| sndcp.contexts[i].state)
}

fn downlink(ip: Ipv4Addr, payload: &[u8]) -> GatewayDownlink {
    GatewayDownlink { dest_ipv4: ip, payload: payload.to_vec() }
}

#[test]
fn activate_demand_dynamic_ip_produces_accept_with_ipv4() {
    let (mut sndcp, mut queue) = make_sndcp();
    let msg = activate(&mut sndcp, &mut queue, 1001, demand_dynamic(3)).expect("no response");
    let req = unwrap_req(msg);
    assert_eq!(req.layer2service, Layer2Service::Acknowledged);
    assert!(!req.packet_data_flag);
    let ActivatePdpContextAccept { ip4_address, pco, .. } = match req.pdu {
        SnDownlink::ActivatePdpContextAccept(a) => a,
        other => panic!("expected ACCEPT, got {other:?}"),
    };
    let ip = ip4_address.expect("no ip in ACCEPT");
    assert!(
        ip.to_bits() >= Ipv4Addr::new(192, 168, 1, 180).to_bits()
            && ip.to_bits() <= Ipv4Addr::new(192, 168, 1, 190).to_bits(),
        "IP {ip:?} outside pool range"
    );
    assert!(pco.is_none(), "expected no PCO for no-CHAP demand");
}

#[test]
fn activate_demand_with_chap_response_produces_accept_with_chap_success() {
    let (mut sndcp, mut queue) = make_sndcp();
    let mut demand = demand_dynamic(5);
    demand.pco = Some(Pco {
        entries: vec![PcoEntry {
            protocol_identity: ProtocolIdentity::Chap,
            contents: vec![2u8, 7, 0, 4],
        }],
    });
    let msg = activate(&mut sndcp, &mut queue, 2001, demand).expect("no response");
    let chap = unwrap_accept(msg).pco.expect("expected PCO with CHAP Success");
    assert_eq!(chap.code, 3, "CHAP code should be Success (3)");
    assert_eq!(chap.id, 7, "CHAP id should echo 7");
    assert_eq!(chap.length, 4);
}

#[test]
fn activate_demand_static_ip_not_in_pool_rejected() {
    let (mut sndcp, mut queue) = make_sndcp();
    let demand = demand_static(3, Ipv4Addr::new(10, 0, 0, 1));
    let msg = activate(&mut sndcp, &mut queue, 3001, demand).expect("no response");
    assert_eq!(unwrap_reject(msg), RejectCause::RequestedStaticIpv4NotAvailable);
}

#[test]
fn activate_demand_ip_pool_exhausted_rejected() {
    let (mut sndcp, mut queue) = make_sndcp();
    for i in 0u32..11 {
        let msg = activate(&mut sndcp, &mut queue, 10_000 + i, demand_dynamic(3))
            .expect("activate failed");
        let pdu = unwrap_req(msg).pdu;
        assert!(
            matches!(pdu, SnDownlink::ActivatePdpContextAccept(_)),
            "activation {i} should succeed, got {pdu:?}"
        );
    }
    let msg = activate(&mut sndcp, &mut queue, 99_999, demand_dynamic(3))
        .expect("no response on exhausted");
    assert_eq!(unwrap_reject(msg), RejectCause::NoResource);
}

#[test]
fn deactivate_demand_frees_ip_and_removes_context() {
    let (mut sndcp, mut queue) = make_sndcp();
    let msg = activate(&mut sndcp, &mut queue, 5001, demand_dynamic(3)).expect("no ACCEPT");
    let ip = accepted_ip(msg);

    rx(&mut sndcp, &mut queue, 5001, SnUplink::DeactivatePdpContextDemand { nsapi: 3 });
    let pdu = unwrap_req(queue.pop_front().expect("no DEACTIVATE ACCEPT")).pdu;
    assert!(
        matches!(pdu, SnDownlink::DeactivatePdpContextAccept { .. }),
        "expected DEACT ACCEPT, got {pdu:?}"
    );

    let msg2 = activate(&mut sndcp, &mut queue, 5002, demand_static(3, ip))
        .expect("no response after re-alloc");
    let pdu2 = unwrap_req(msg2).pdu;
    assert!(
        matches!(pdu2, SnDownlink::ActivatePdpContextAccept(_)),
        "static re-alloc of freed IP should succeed, got {pdu2:?}"
    );
}

#[test]
fn uplink_unitdata_pushes_to_gateway_queue() {
    let (mut sndcp, mut queue) = make_sndcp();
    activate(&mut sndcp, &mut queue, 6001, demand_dynamic(3)).expect("no ACCEPT");
    drain_queue(&mut queue);

    let payload = vec![0x45u8, 0x00, 0x00, 0x14, 0x00, 0x01, 0x00, 0x00];
    rx(
        &mut sndcp,
        &mut queue,
        6001,
        SnUplink::Unitdata { nsapi: 3, payload: payload.clone() },
    );

    let msgs = drain_queue(&mut queue);
    assert!(msgs.is_empty(), "uplink UNITDATA should not produce downlink messages");

    let ul = sndcp.take_uplink().into_iter().next().expect("no uplink in gateway queue");
    assert_eq!(ul.payload, payload);
    assert_eq!(ul.nsapi, 3);
}

#[test]
fn downlink_ip_when_ready_sends_unitdata() {
    let (mut sndcp, mut queue) = make_sndcp();
    let msg = activate(&mut sndcp, &mut queue, 7001, demand_dynamic(4)).expect("no ACCEPT");
    let ip = accepted_ip(msg);

    let payload = vec![0xDE, 0xAD, 0xBE, 0xEF];
    sndcp.feed_downlink_ip(&mut queue, downlink(ip, &payload));

    let req = unwrap_req(queue.pop_front().expect("no downlink UNITDATA"));
    assert_eq!(req.layer2service, Layer2Service::Unacknowledged);
    assert!(req.packet_data_flag);
    match req.pdu {
        SnDownlink::Unitdata { nsapi, payload: p, .. } => {
            assert_eq!(p, payload);
            assert_eq!(nsapi, 4);
        }
        other => panic!("expected UNITDATA, got {other:?}"),
    }
}

#[test]
fn downlink_ip_when_standby_sends_page_request() {
    let (mut sndcp, mut queue) = make_sndcp();
    let msg = activate(&mut sndcp, &mut queue, 8001, demand_dynamic(5)).expect("no ACCEPT");
    let ip = accepted_ip(msg);

    rx(
        &mut sndcp,
        &mut queue,
        8001,
        SnUplink::EndOfData { immediate_service_change: false },
    );
    drain_queue(&mut queue);

    sndcp.feed_downlink_ip(&mut queue, downlink(ip, &[0xCA, 0xFE]));

    let req = unwrap_req(queue.pop_front().expect("no PAGE REQUEST"));
    assert_eq!(req.layer2service, Layer2Service::Acknowledged, "PAGE REQUEST should be Ack");
    assert!(!req.packet_data_flag);
    match req.pdu {
        SnDownlink::PageRequest { nsapi } => assert_eq!(nsapi, 5),
        other => panic!("expected PAGE REQUEST, got {other:?}"),
    }
    assert!(queue.pop_front().is_none(), "UNITDATA should not be sent before PAGE RESPONSE");
}

#[test]
fn page_response_drains_queued_downlink() {
    let (mut sndcp, mut queue) = make_sndcp();
    let msg = activate(&mut sndcp, &mut queue, 9001, demand_dynamic(6)).expect("no ACCEPT");
    let ip = accepted_ip(msg);

    rx(
        &mut sndcp,
        &mut queue,
        9001,
        SnUplink::EndOfData { immediate_service_change: false },
    );
    drain_queue(&mut queue);

    let payload1 = vec![0x01u8, 0x02];
    let payload2 = vec![0x03u8, 0x04];
    sndcp.feed_downlink_ip(&mut queue, downlink(ip, &payload1));
    drain_queue(&mut queue);
    sndcp.feed_downlink_ip(&mut queue, downlink(ip, &payload2));
    assert!(queue.pop_front().is_none(), "second downlink should be queued only, no output");

    rx(&mut sndcp, &mut queue, 9001, SnUplink::PageResponse { nsapi: 6 });

    let msgs = drain_queue(&mut queue);
    assert_eq!(msgs.len(), 2, "expected 2 UNITDATA PDUs, got {}", msgs.len());
    let payloads: Vec<Vec<u8>> = msgs
        .into_iter()
        .map(|m| match unwrap_req(m).pdu {
            SnDownlink::Unitdata { payload, .. } => payload,
            other => panic!("expected UNITDATA, got {other:?}"),
        })
        .collect();
    assert_eq!(payloads[0], payload1);
    assert_eq!(payloads[1], payload2);
}

#[test]
fn retransmitted_demand_returns_cached_accept_verbatim() {
    let (mut sndcp, mut queue) = make_sndcp();
    let first = activate(&mut sndcp, &mut queue, 10001, demand_dynamic(7));
    let accept1 = unwrap_accept(first.expect("no first ACCEPT"));
    let second = activate(&mut sndcp, &mut queue, 10001, demand_dynamic(7));
    let accept2 = unwrap_accept(second.expect("no second ACCEPT"));
    assert_eq!(accept1, accept2, "retransmitted ACCEPT should be identical");
}

#[test]
fn unknown_pdu_type_dropped_without_panic() {
    let (mut sndcp, mut queue) = make_sndcp();
    for pdu in [SnUplink::Other, SnUplink::Malformed, SnUplink::Data { nsapi: 0, n_pdu: vec![] }] {
        rx(&mut sndcp, &mut queue, 11001, pdu);
        assert!(queue.pop_front().is_none(), "unhandled PDU type should not produce output");
    }
    assert!(sndcp.contexts.is_empty());
}

#[test]
fn accept_carries_the_configured_values() {
    let (mut sndcp, mut queue) = make_sndcp();
    let a = unwrap_accept(activate(&mut sndcp, &mut queue, 1, demand_dynamic(3)).unwrap());
    assert_eq!(a.nsapi, 3);
    assert_eq!(a.tia, Tia::Ipv4Dynamic);
    assert_eq!(a.ip4_address, Some(Ipv4Addr::new(192, 168, 1, 180)));
    assert_eq!(a.ready_timer, 8);
    let ip = Ipv4Addr::new(192, 168, 1, 185);
    let s = unwrap_accept(activate(&mut sndcp, &mut queue, 1, demand_static(4, ip)).unwrap());
    assert_eq!(s.tia, Tia::Ipv4Static);
    assert_eq!(s.ip4_address, Some(ip));
}

#[test]
fn another_demand_for_an_active_context_is_refused() {
    let (mut sndcp, mut queue) = make_sndcp();
    activate(&mut sndcp, &mut queue, 1, demand_dynamic(3)).unwrap();
    rx(&mut sndcp, &mut queue, 1, SnUplink::DataTransmitRequest { nsapi: 3 });
    drain_queue(&mut queue);
    let ip = Ipv4Addr::new(192, 168, 1, 185);
    let msg = activate(&mut sndcp, &mut queue, 1, demand_static(3, ip)).unwrap();
    assert_eq!(unwrap_reject(msg), RejectCause::PdpContextAlreadyActive);
    assert_eq!(sndcp.contexts.len(), 1);
}

#[test]
fn transmit_request_is_refused_without_a_context() {
    let (mut sndcp, mut queue) = make_sndcp();
    rx(&mut sndcp, &mut queue, 1, SnUplink::DataTransmitRequest { nsapi: 3 });
    match unwrap_req(queue.pop_front().unwrap()).pdu {
        SnDownlink::DataTransmitResponse { nsapi: 3, refused } => {
            assert_eq!(refused, Some(TransmitResponseRejectCause::UnknownNsapi));
        }
        other => panic!("unexpected {other:?}"),
    }
}

#[test]
fn lowest_free_address_is_handed_out() {
    let (mut sndcp, mut queue) = make_sndcp();
    let mut last = |ssi| {
        accepted_ip(activate(&mut sndcp, &mut queue, ssi, demand_dynamic(3)).unwrap()).octets().3
    };
    assert_eq!(last(1), 180);
    assert_eq!(last(2), 181);
    assert_eq!(last(3), 182);
    rx(&mut sndcp, &mut queue, 2, SnUplink::DeactivatePdpContextDemand { nsapi: 3 });
    drain_queue(&mut queue);
    let again = accepted_ip(activate(&mut sndcp, &mut queue, 4, demand_dynamic(3)).unwrap());
    assert_eq!(again.octets().3, 181);
}

#[test]
fn packet_for_an_unknown_address_is_dropped() {
    let (mut sndcp, mut queue) = make_sndcp();
    activate(&mut sndcp, &mut queue, 1, demand_dynamic(3)).unwrap();
    let nobody = Ipv4Addr::new(192, 168, 1, 190);
    sndcp.feed_downlink_ip(&mut queue, downlink(nobody, &[1]));
    sndcp.feed_downlink_ip_acknowledged(&mut queue, downlink(nobody, &[1]));
    sndcp.feed_gateway_downlink(&mut queue, downlink(nobody, &[1]));
    assert!(drain_queue(&mut queue).is_empty());
    assert_eq!(state_of(&sndcp, 1, 3), Some(PdpState::Ready));
}

#[test]
fn reconnect_undoes_end_of_data() {
    let (mut sndcp, mut queue) = make_sndcp();
    activate(&mut sndcp, &mut queue, 1, demand_dynamic(3)).unwrap();
    rx(&mut sndcp, &mut queue, 1, SnUplink::EndOfData { immediate_service_change: true });
    assert_eq!(state_of(&sndcp, 1, 3), Some(PdpState::Standby));
    rx(&mut sndcp, &mut queue, 1, SnUplink::Reconnect { target: Some(3) });
    assert_eq!(state_of(&sndcp, 1, 3), Some(PdpState::Ready));
    assert!(drain_queue(&mut queue).is_empty());
}

#[test]
fn contexts_of_other_terminals_are_left_alone() {
    let (mut sndcp, mut queue) = make_sndcp();
    activate(&mut sndcp, &mut queue, 1, demand_dynamic(3)).unwrap();
    activate(&mut sndcp, &mut queue, 2, demand_dynamic(3)).unwrap();
    rx(&mut sndcp, &mut queue, 1, SnUplink::EndOfData { immediate_service_change: false });
    rx(&mut sndcp, &mut queue, 1, SnUplink::DeactivatePdpContextDemand { nsapi: 3 });
    assert_eq!(state_of(&sndcp, 1, 3), None);
    assert_eq!(state_of(&sndcp, 2, 3), Some(PdpState::Ready));
}

#[test]
fn silence_leads_to_standby_and_then_to_release() {
    let (mut sndcp, mut queue) = make_sndcp();
    let t0 = TdmaTime::default();
    sndcp.tick_start(t0);
    let ip = accepted_ip(activate(&mut sndcp, &mut queue, 1, demand_dynamic(3)).unwrap());
    let mut at = |slots: i32| {
        sndcp.tick_start(t0.add_timeslots(slots));
        assert!(!sndcp.tick_end());
        (state_of(&sndcp, 1, 3), sndcp.ipv4_pool.is_in_range(ip))
    };
    assert_eq!(at(READY_TIMER_SLOTS - 1).0, Some(PdpState::Ready));
    assert_eq!(at(READY_TIMER_SLOTS + 1).0, Some(PdpState::Standby));
    assert_eq!(at(READY_TIMER_SLOTS + STANDBY_TIMER_SLOTS - 1).0, Some(PdpState::Standby));
    assert_eq!(at(READY_TIMER_SLOTS + STANDBY_TIMER_SLOTS + 2), (None, true));
    let again = accepted_ip(activate(&mut sndcp, &mut queue, 2, demand_static(3, ip)).unwrap());
    assert_eq!(again, ip);
}

#[test]
fn timer_durations() {
    assert_eq!(READY_TIMER_SLOTS, 4237);
    assert_eq!(STANDBY_TIMER_SLOTS, 42353);
    assert_eq!(RESP_WAIT_TIMER_SLOTS, 706);
    let t = TdmaTime::default();
    assert!(!timer_expired(t, t));
    assert!(timer_expired(t, t.add_timeslots(1)));
    assert!(!timer_expired(t.add_timeslots(1), t));
}

#[test]
fn pool_hands_out_each_address_once() {
    let mut pool = Ipv4Pool::from_config(&pool_config());
    let taken = Ipv4Addr::new(192, 168, 1, 183);
    assert_eq!(pool.allocate_specific(taken), Some(taken));
    assert_eq!(pool.allocate_specific(taken), None);
    for lease in [176, 177, 178, 179, 191] {
        assert_eq!(pool.allocate_specific(Ipv4Addr::new(192, 168, 1, lease)), None);
    }
    let mut got: Vec<u8> = Vec::new();
    while let Some(ip) = pool.allocate() {
        got.push(ip.octets().3);
    }
    assert_eq!(got, vec![180, 181, 182, 184, 185, 186, 187, 188, 189, 190]);
    pool.free(taken);
    assert_eq!(pool.allocate(), Some(taken));
    assert_eq!(pool.allocate(), None);
}

#[test]
fn aborted_activation_leaves_nothing() {
    let (mut sndcp, mut queue) = make_sndcp();
    let ip = accepted_ip(activate(&mut sndcp, &mut queue, 1, demand_dynamic(3)).unwrap());
    sndcp.abort_activation(PdpKey { ssi: 1, nsapi: 3 });
    assert_eq!(state_of(&sndcp, 1, 3), None);
    let again = accepted_ip(activate(&mut sndcp, &mut queue, 2, demand_dynamic(3)).unwrap());
    assert_eq!(again, ip);
}

#[test]
fn silent_terminal_that_is_paged_keeps_its_packets_in_order() {
    let (mut sndcp, mut queue) = make_sndcp();
    let ip = accepted_ip(activate(&mut sndcp, &mut queue, 1, demand_dynamic(3)).unwrap());
    rx(&mut sndcp, &mut queue, 1, SnUplink::EndOfData { immediate_service_change: false });
    for n in 0u8..4 {
        sndcp.feed_downlink_ip(&mut queue, downlink(ip, &[n]));
    }
    let pages = drain_queue(&mut queue);
    assert_eq!(pages.len(), 1, "it is paged once");
    rx(&mut sndcp, &mut queue, 1, SnUplink::PageResponse { nsapi: 3 });
    let sent: Vec<Vec<u8>> = drain_queue(&mut queue)
        .into_iter()
        .map(|m| match unwrap_req(m).pdu {
            SnDownlink::Unitdata { payload, .. } => payload,
            other => panic!("unexpected {other:?}"),
        })
        .collect();
    assert_eq!(sent, vec![vec![0], vec![1], vec![2], vec![3]]);
}

#[test]
fn terminal_with_a_lease_gets_it() {
    let (mut sndcp, mut queue) = make_sndcp();
    let a = unwrap_accept(activate(&mut sndcp, &mut queue, LEASED, demand_dynamic(3)).unwrap());
    assert_eq!(a.ip4_address, Some(Ipv4Addr::new(192, 168, 1, 178)));
    assert_eq!(a.tia, Tia::Ipv4Dynamic);
    let second = accepted_ip(activate(&mut sndcp, &mut queue, LEASED, demand_dynamic(4)).unwrap());
    assert_eq!(second, Ipv4Addr::new(192, 168, 1, 180), "the lease is in use");
    sndcp.feed_downlink_ip(&mut queue, downlink(Ipv4Addr::new(192, 168, 1, 178), &[7]));
    let req = unwrap_req(queue.pop_front().expect("the packet finds its context"));
    assert_eq!(req.main_address.ssi, LEASED);
}

#[test]
fn lease_goes_to_no_other_terminal() {
    let (mut sndcp, mut queue) = make_sndcp();
    let lease = Ipv4Addr::new(192, 168, 1, 178);
    let msg = activate(&mut sndcp, &mut queue, 77, demand_static(3, lease)).unwrap();
    assert_eq!(unwrap_reject(msg), RejectCause::RequestedStaticIpv4NotAvailable);
    for i in 0u32..11 {
        let ip = accepted_ip(activate(&mut sndcp, &mut queue, i, demand_dynamic(3)).unwrap());
        assert_eq!(ip.octets().3, 180 + i as u8);
    }
    let msg = activate(&mut sndcp, &mut queue, 77, demand_dynamic(3)).unwrap();
    assert_eq!(unwrap_reject(msg), RejectCause::NoResource);
    let ip = accepted_ip(activate(&mut sndcp, &mut queue, LEASED, demand_dynamic(3)).unwrap());
    assert_eq!(ip, lease, "the lease is there though the pool is empty");
}

#[test]
fn released_lease_stays_out_of_the_pool() {
    let (mut sndcp, mut queue) = make_sndcp();
    let lease = Ipv4Addr::new(192, 168, 1, 178);
    let first = accepted_ip(activate(&mut sndcp, &mut queue, LEASED, demand_dynamic(3)).unwrap());
    assert_eq!(first, lease);
    rx(&mut sndcp, &mut queue, LEASED, SnUplink::DeactivatePdpContextDemand { nsapi: 3 });
    drain_queue(&mut queue);
    let other = accepted_ip(activate(&mut sndcp, &mut queue, 77, demand_dynamic(3)).unwrap());
    assert_eq!(other, Ipv4Addr::new(192, 168, 1, 180));
    let again = accepted_ip(activate(&mut sndcp, &mut queue, LEASED, demand_dynamic(3)).unwrap());
    assert_eq!(again, lease);
}

#[test]
fn expired_lease_stays_out_of_the_pool() {
    let (mut sndcp, mut queue) = make_sndcp();
    let t0 = TdmaTime::default();
    sndcp.tick_start(t0);
    let lease = accepted_ip(activate(&mut sndcp, &mut queue, LEASED, demand_dynamic(3)).unwrap());
    sndcp.tick_start(t0.add_timeslots(READY_TIMER_SLOTS + 1));
    sndcp.tick_end();
    sndcp.tick_start(t0.add_timeslots(READY_TIMER_SLOTS + STANDBY_TIMER_SLOTS + 3));
    sndcp.tick_end();
    assert_eq!(state_of(&sndcp, LEASED, 3), None);
    assert_eq!(sndcp.ipv4_pool.allocate_specific(lease), None);
    let again = accepted_ip(activate(&mut sndcp, &mut queue, LEASED, demand_dynamic(3)).unwrap());
    assert_eq!(again, lease);
}
