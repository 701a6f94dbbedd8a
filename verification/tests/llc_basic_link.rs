use tetra_pd::bits::BitBuffer;
use tetra_pd::llc::config::{LlcConfig, LlcLimits};
use tetra_pd::llc::entity::{Llc, ScheduledOutAck};
use tetra_pd::llc::pdus::RxPdu;
use tetra_pd::llc::report::{format_expected_ack_list, format_scheduled_ack_list};
use tetra_pd::saps::{
    ChannelInfo, LlcPdu, MessageQueue, Sap, SapMsg, SapMsgInner, SsiType, TetraAddress,
    TetraEntity, TlaReqBl, TmaUnitdataInd, TmaUnitdataReq, TxParams, TxState,
};
use tetra_pd::sec_llc::CfgAdvancedLink;
use tetra_pd::tdma::TdmaTime;

const CARRIER: u16 = 1521;
const SSI: u32 = 42;
const T251: u32 = 16;

fn make_llc() -> Llc {
    Llc::new(LlcConfig {
        main_carrier: CARRIER,
        advanced_link: CfgAdvancedLink::default(),
        limits: LlcLimits {
            t251_sender_retry: T251,
            t252_ack_waiting: 36,
            t261_setup_waiting: 16,
            t263_disconnect_waiting: 16,
            t265_reconnect_waiting: 16,
            t271_not_ready_for_tx: 2592,
            t272_not_ready_for_rx: 1296,
            n251_bl_max_tlsdu_len_bits: 64,
            n252_bl_max_retransmits: 2,
        },
    })
}

fn req(ssi: u32, bits: usize, tx_reporter: Option<u64>) -> TlaReqBl {
    TlaReqBl {
        main_address: TetraAddress::new(ssi, SsiType::Issi),
        link_id: 0,
        endpoint_id: 0,
        params: TxParams::signalling(),
        fcs_flag: false,
        tl_sdu: vec![true; bits],
        tx_reporter,
    }
}

fn from_above(msg: SapMsgInner) -> SapMsg {
    SapMsg { sap: Sap::TlaSap, src: TetraEntity::Mle, dest: TetraEntity::Llc, msg }
}

fn from_mac(ssi: u32, pdu: Option<RxPdu>) -> SapMsg {
    SapMsg {
        sap: Sap::TmaSap,
        src: TetraEntity::Umac,
        dest: TetraEntity::Llc,
        msg: SapMsgInner::TmaUnitdataInd(TmaUnitdataInd {
            carrier_num: CARRIER,
            pdu,
            main_address: TetraAddress::new(ssi, SsiType::Issi),
            link_id: 0,
            endpoint_id: 0,
            channel: ChannelInfo {
                new_endpoint_id: None,
                css_endpoint_id: None,
                scrambling_code: 0,
                air_interface_encryption: 0,
                chan_change_response_req: false,
                chan_change_handle: None,
                chan_info: None,
            },
        }),
    }
}

fn drain(queue: &mut MessageQueue) -> Vec<SapMsg> {
    let mut out = Vec::new();
    while let Some(m) = queue.pop_front() {
        out.push(m);
    }
    out
}

/// One tick; returns what was handed to the MAC.
fn tick(llc: &mut Llc, queue: &mut MessageQueue, at: i32) -> Vec<TmaUnitdataReq> {
    llc.tick_start(TdmaTime::default().add_timeslots(at));
    llc.tick_end(queue);
    drain(queue)
        .into_iter()
        .filter_map(|m| match m.msg {
            SapMsgInner::TmaUnitdataReq(r) => Some(r),
            _ => None,
        })
        .collect()
}

fn ack(nr: u8) -> RxPdu {
    RxPdu::BlAck { has_fcs: false, nr, body: BitBuffer::from_bits(vec![]) }
}

fn data(ns: u8) -> RxPdu {
    RxPdu::BlData { has_fcs: false, ns, body: BitBuffer::from_bitstr("1011") }
}

#[test]
fn received_data_goes_up_and_is_acknowledged() {
    let mut llc = make_llc();
    let mut queue = MessageQueue::new();
    llc.rx_prim(&mut queue, from_mac(SSI, Some(data(1))));
    let up = drain(&mut queue);
    assert_eq!(up.len(), 1);
    match &up[0].msg {
        SapMsgInner::TlaTlDataIndBl(ind) => {
            assert_eq!(ind.tl_sdu, Some(vec![true, false, true, true]));
        }
        other => panic!("unexpected {other:?}"),
    }
    let down = tick(&mut llc, &mut queue, 0);
    assert_eq!(down.len(), 1);
    assert!(matches!(down[0].pdu, LlcPdu::BlAck { has_fcs: false, nr: 1, .. }));
    assert_eq!(down[0].main_address.ssi, SSI);
    assert!(tick(&mut llc, &mut queue, 1).is_empty(), "one acknowledgement is enough");
}

#[test]
fn broken_checksum_is_dropped() {
    let mut llc = make_llc();
    let mut queue = MessageQueue::new();
    let body = BitBuffer::from_bits(vec![false; 40]);
    llc.rx_prim(&mut queue, from_mac(SSI, Some(RxPdu::BlData { has_fcs: true, ns: 0, body })));
    assert!(drain(&mut queue).is_empty());
    assert!(tick(&mut llc, &mut queue, 0).is_empty());
}

#[test]
fn unserved_and_undecoded_pdus_are_dropped() {
    let mut llc = make_llc();
    let mut queue = MessageQueue::new();
    for pdu in [None, Some(RxPdu::Unsupported), Some(RxPdu::Malformed)] {
        llc.rx_prim(&mut queue, from_mac(SSI, pdu));
    }
    assert!(drain(&mut queue).is_empty());
    assert!(tick(&mut llc, &mut queue, 0).is_empty());
}

#[test]
fn acknowledgement_rides_on_data() {
    let mut llc = make_llc();
    let mut queue = MessageQueue::new();
    llc.rx_prim(&mut queue, from_mac(SSI, Some(data(1))));
    drain(&mut queue);
    llc.rx_prim(&mut queue, from_above(SapMsgInner::TlaTlDataReqBl(req(SSI, 8, None))));
    let down = tick(&mut llc, &mut queue, 0);
    assert_eq!(down.len(), 1);
    assert!(matches!(down[0].pdu, LlcPdu::BlAdata { has_fcs: false, nr: 1, ns: 0, .. }));
}

#[test]
fn one_message_in_flight_and_numbers_alternate() {
    let mut llc = make_llc();
    let mut queue = MessageQueue::new();
    for _ in 0..3 {
        llc.rx_prim(&mut queue, from_above(SapMsgInner::TlaTlDataReqBl(req(SSI, 8, None))));
    }
    let mut numbers = Vec::new();
    for nr in [0, 1, 0] {
        let down = tick(&mut llc, &mut queue, 0);
        assert_eq!(down.len(), 1, "the next message waits for the confirmation");
        match down[0].pdu {
            LlcPdu::BlData { ns, .. } => numbers.push(ns),
            ref other => panic!("unexpected {other:?}"),
        }
        llc.on_tx_report(down[0].tx_reporter.unwrap().id, TxState::Transmitted);
        assert!(tick(&mut llc, &mut queue, 0).is_empty());
        llc.rx_prim(&mut queue, from_mac(SSI, Some(ack(nr))));
    }
    assert_eq!(numbers, vec![0, 1, 0]);
    assert!(llc.outbound_messages.is_empty());
}

#[test]
fn subscribers_do_not_wait_for_each_other() {
    let mut llc = make_llc();
    let mut queue = MessageQueue::new();
    llc.rx_prim(&mut queue, from_above(SapMsgInner::TlaTlDataReqBl(req(SSI, 8, None))));
    llc.rx_prim(&mut queue, from_above(SapMsgInner::TlaTlDataReqBl(req(SSI + 1, 8, None))));
    assert_eq!(tick(&mut llc, &mut queue, 0).len(), 2);
}

#[test]
fn missing_acknowledgement_leads_to_retransmission_and_then_loss() {
    let mut llc = make_llc();
    let mut queue = MessageQueue::new();
    llc.rx_prim(&mut queue, from_above(SapMsgInner::TlaTlDataReqBl(req(SSI, 8, Some(7)))));
    let mut at: i32 = 0;
    let mut sent = 0;
    let mut again = tick(&mut llc, &mut queue, at);
    while let Some(r) = again.first() {
        sent += 1;
        let id = r.tx_reporter.expect("the MAC reports on it").id;
        llc.on_tx_report(id, TxState::Transmitted);
        assert!(tick(&mut llc, &mut queue, at + 1).is_empty(), "T.251 runs");
        at += T251 as i32 + 2;
        again = tick(&mut llc, &mut queue, at);
    }
    assert_eq!(sent, 3, "the message and two retransmissions");
    assert!(llc.outbound_messages.is_empty());
    let outcomes = llc.take_tx_outcomes();
    assert_eq!(outcomes.len(), 1);
    assert_eq!(outcomes[0].state, TxState::Lost);
}

#[test]
fn confirmed_message_is_reported() {
    let mut llc = make_llc();
    let mut queue = MessageQueue::new();
    llc.rx_prim(&mut queue, from_above(SapMsgInner::TlaTlDataReqBl(req(SSI, 8, Some(7)))));
    let id = tick(&mut llc, &mut queue, 0)[0].tx_reporter.unwrap().id;
    llc.rx_prim(&mut queue, from_mac(SSI, Some(ack(0))));
    assert!(llc.take_tx_outcomes().is_empty(), "it was not on the air yet");
    llc.on_tx_report(id, TxState::Transmitted);
    tick(&mut llc, &mut queue, 1);
    llc.rx_prim(&mut queue, from_mac(SSI, Some(ack(1))));
    assert!(llc.take_tx_outcomes().is_empty(), "the number is another one");
    llc.rx_prim(&mut queue, from_mac(SSI, Some(ack(0))));
    let outcomes = llc.take_tx_outcomes();
    assert_eq!(outcomes.len(), 1);
    assert_eq!(outcomes[0].state, TxState::Acknowledged);
}

#[test]
fn unconfirmed_message_goes_out_once() {
    let mut llc = make_llc();
    let mut queue = MessageQueue::new();
    llc.rx_prim(&mut queue, from_above(SapMsgInner::TlaTlUnitdataReqBl(req(SSI, 8, None))));
    let down = tick(&mut llc, &mut queue, 0);
    assert_eq!(down.len(), 1);
    assert!(matches!(down[0].pdu, LlcPdu::BlUdata { has_fcs: false, .. }));
    assert!(tick(&mut llc, &mut queue, 1).is_empty());
}

#[test]
fn printed_acknowledgements() {
    assert_eq!(format_scheduled_ack_list(&vec![]), "Scheduled out acks:\n");
    let acks = vec![ScheduledOutAck {
        addr: TetraAddress::new(1234567, SsiType::Issi),
        t_start: TdmaTime { h: 0, m: 1, f: 1, t: 3 },
        nr: 1,
        carrier_num: CARRIER,
        ts: 1,
    }];
    assert_eq!(
        format_scheduled_ack_list(&acks),
        "Scheduled out acks:\n  t_start: 3, ssi: 1234567, carrier: 1521, n: 1\n"
    );
}

#[test]
fn printed_messages() {
    let mut llc = make_llc();
    let mut queue = MessageQueue::new();
    assert_eq!(format_expected_ack_list(&llc.outbound_messages), "Expected in acks:\n");
    llc.rx_prim(&mut queue, from_above(SapMsgInner::TlaTlDataReqBl(req(SSI, 8, None))));
    let id = tick(&mut llc, &mut queue, 0)[0].tx_reporter.unwrap().id;
    llc.on_tx_report(id, TxState::Transmitted);
    tick(&mut llc, &mut queue, 1);
    let e = &llc.outbound_messages[0];
    assert_eq!(
        format_expected_ack_list(&llc.outbound_messages),
        format!(
            "Expected in acks:\n  ssi: 42, carrier: 1521, n: 0, retransmissions: 0, \
             t_first: {:?}, t_umac_done: {:?}, state: {:?}\n",
            e.t_first, e.t_umac_done, e.tx_reporter.state
        )
    );
    assert!(e.t_umac_done.is_some());
}

#[test]
fn new_settings_take_effect() {
    let mut llc = make_llc();
    let mut queue = MessageQueue::new();
    llc.set_config(7, CfgAdvancedLink::default());
    llc.rx_prim(&mut queue, from_above(SapMsgInner::TlaTlUnitdataReqBl(req(SSI, 8, None))));
    assert_eq!(tick(&mut llc, &mut queue, 0)[0].carrier_num, 7);
}
