//! What each SN-PDU of a terminal and each packet for one does, told by what it leaves behind
//! and what it sends.

use crate::ipv4::Ipv4Addr;
use crate::saps::{
    ChanAllocType, CmceChanAllocReq, Layer2Service, LtpdIndView, Sap, SapInnerView, SapMsgView,
    SsiType, TetraAddress, TetraEntity, UlDlAssignment,
};
use crate::sec_packet_data::{mtu_code, VALID_MTU_VALUES};
use crate::sndcp::entity::{
    activation, after_downlink, after_downlink_acknowledged, after_end_of_data,
    after_gateway_downlink, after_message, after_timers, after_uplink, chap_id, chap_id_of,
    ctx_expired, ctx_pos, downlink_acknowledged_msgs, downlink_msgs, find_ctx, free_lease,
    gateway_downlink_msgs, has_ctx, in_use, is_chap, is_first_chap, lease_first, lease_usable,
    lemma_ctx_pos, message_msgs, lemma_timer_pass, lemma_with_ctx_wf, standby_ctx, uplink_msgs,
    Activation, AlRoute, CtxView, PdpKey, PdpState, SndcpView, READY_TIMER_SLOTS,
    RESP_WAIT_TIMER_SLOTS, STANDBY_TIMER_SLOTS,
};
use crate::sndcp::laws::{
    law_address_finds_context, law_dynamic_address_is_lowest, law_expired_context_released,
    law_timers_keep_live_contexts,
};
use crate::sndcp::pdus::{
    ActivatePdpContextAccept, DemandView, RejectCause, SnDownlinkView, SnUplinkView, Tia,
    TransmitResponseRejectCause,
};
use crate::tdma::{lemma_slot_index_time_at, time_at, TdmaTime};
use vstd::prelude::*;

verus! {

/// The PDU comes from the terminal of context `i`.
pub open spec fn from_terminal(st: SndcpView, ind: LtpdIndView, i: int) -> bool {
    0 <= i < st.contexts.len() && ind.received_tetra_address.ssi == st.contexts[i].key.ssi
}

/// The terminal has no context of this NSAPI.
pub open spec fn no_context(st: SndcpView, ssi: u32, nsapi: u8) -> bool {
    forall|i: int|
        0 <= i < st.contexts.len() ==> !((#[trigger] st.contexts[i]).key.ssi == ssi
            && st.contexts[i].key.nsapi == nsapi)
}

/// Nothing but context `i` and the packets for the gateway may have changed.
pub open spec fn only_context(st: SndcpView, t: SndcpView, i: int) -> bool {
    &&& t.config == st.config && t.pool == st.pool && t.by_ip == st.by_ip && t.dltime == st.dltime
    &&& t.contexts.len() == st.contexts.len()
    &&& forall|k: int|
        0 <= k < st.contexts.len() && k != i ==> #[trigger] t.contexts[k] == st.contexts[k]
}

/// What a context is made of stays: its key, its address and what it was activated with.
pub open spec fn same_identity(c: CtxView, d: CtxView) -> bool {
    &&& d.key == c.key && d.ipv4 == c.ipv4 && d.tia == c.tia && d.last_accept == c.last_accept
    &&& d.link_id == c.link_id && d.endpoint_id == c.endpoint_id
}

/// The time `n` slots after `now`.
pub open spec fn due(now: TdmaTime, n: i32) -> Option<TdmaTime> {
    Some(time_at(now.slot_index() + n))
}

/// The message carries `pdu` from SNDCP to the layer below.
pub open spec fn carries(m: SapMsgView, to: TetraAddress, pdu: SnDownlinkView) -> bool {
    &&& m.sap == Sap::TlpdSap && m.src == TetraEntity::Sndcp && m.dest == TetraEntity::Mle
    &&& m.msg matches SapInnerView::LtpdMleUnitdataReq(req) && req.main_address == to && req.pdu
        == pdu
}

/// The message goes over this link.
pub open spec fn goes_over(m: SapMsgView, link_id: u32, endpoint_id: u32, al: Option<u8>) -> bool {
    m.msg matches SapInnerView::LtpdMleUnitdataReq(req) && req.link_id == link_id
        && req.endpoint_id == endpoint_id && req.al_link_number == al
}

/// The message is signalling: confirmed, not packet data, with this grant.
pub open spec fn signals(m: SapMsgView, grant: Option<CmceChanAllocReq>) -> bool {
    m.msg matches SapInnerView::LtpdMleUnitdataReq(req) && req.layer2service
        == Layer2Service::Acknowledged && !req.packet_data_flag && req.chan_alloc == grant
}

/// The message is packet data, to be confirmed or not.
pub open spec fn is_packet(m: SapMsgView, service: Layer2Service) -> bool {
    m.msg matches SapInnerView::LtpdMleUnitdataReq(req) && req.layer2service == service
        && req.packet_data_flag && req.chan_alloc is None
}

/// A reply goes back the way the PDU came, over the basic link, as signalling.
pub open spec fn answers(msgs: Seq<SapMsgView>, ind: LtpdIndView, pdu: SnDownlinkView, grant: Option<CmceChanAllocReq>) -> bool {
    &&& msgs.len() == 1
    &&& carries(msgs[0], ind.received_tetra_address, pdu)
    &&& goes_over(msgs[0], ind.link_id, ind.endpoint_id, None)
    &&& signals(msgs[0], grant)
}

/// The context is found by its key.
proof fn lemma_found(st: SndcpView, i: int)
    requires
        st.wf(),
        0 <= i < st.contexts.len(),
    ensures
        ctx_pos(st.contexts, st.contexts[i].key) == Some(i),
        find_ctx(st.contexts, st.contexts[i].key) == Some(st.contexts[i]),
{
    reveal(SndcpView::wf);
    assert(has_ctx(st.contexts, st.contexts[i].key, i));
    lemma_ctx_pos(st.contexts, st.contexts[i].key, i);
}

/// A key without a context is not found.
proof fn lemma_not_found(st: SndcpView, ssi: u32, nsapi: u8)
    requires
        no_context(st, ssi, nsapi),
    ensures
        ctx_pos(st.contexts, PdpKey { ssi, nsapi }) is None,
        find_ctx(st.contexts, PdpKey { ssi, nsapi }) is None,
{
    assert forall|i: int| !has_ctx(st.contexts, PdpKey { ssi, nsapi }, i) by {
        if 0 <= i < st.contexts.len() {
            assert(!(st.contexts[i].key.ssi == ssi && st.contexts[i].key.nsapi == nsapi));
        }
    }
}

// ---- packets from a terminal -----------------------------------------------------------------

/// The context is up after traffic from its terminal, with its timer started afresh; a link
/// with a number is remembered as the one for data.
pub open spec fn revived(c: CtxView, d: CtxView, ind: LtpdIndView, now: TdmaTime) -> bool {
    &&& same_identity(c, d)
    &&& d.state == PdpState::Ready
    &&& d.ready_deadline == due(now, READY_TIMER_SLOTS)
    &&& d.standby_deadline is None
    &&& d.last_activity == now
    &&& d.pending == c.pending
    &&& match ind.al_link_number {
        Some(n) => d.al_link == Some(
            AlRoute { link_id: ind.link_id, endpoint_id: ind.endpoint_id, al_link_number: n },
        ),
        None => d.al_link == c.al_link,
    }
}

/// An SN-UNITDATA from a terminal whose context is ready or in standby adds exactly one
/// packet to the end of the queue for the gateway, with that terminal, NSAPI and payload. The
/// context is ready afterwards. Nothing is sent.
pub proof fn law_unitdata_reaches_gateway(st: SndcpView, ind: LtpdIndView, i: int, payload: Seq<u8>)
    requires
        st.wf(),
        from_terminal(st, ind, i),
        ind.pdu == (SnUplinkView::Unitdata { nsapi: st.contexts[i].key.nsapi, payload }),
        st.contexts[i].state == PdpState::Ready || st.contexts[i].state == PdpState::Standby,
    ensures
        ({
            let t = after_uplink(st, ind);
            &&& t.uplink.len() == st.uplink.len() + 1
            &&& t.uplink.drop_last() == st.uplink
            &&& t.uplink.last().main_address == ind.received_tetra_address
            &&& t.uplink.last().nsapi == st.contexts[i].key.nsapi
            &&& t.uplink.last().payload == payload
            &&& only_context(st, t, i)
            &&& revived(st.contexts[i], t.contexts[i], ind, st.dltime)
            &&& t.contexts[i].resp_wait_deadline == st.contexts[i].resp_wait_deadline
            &&& uplink_msgs(st, ind).len() == 0
        }),
{
    lemma_found(st, i);
    assert(after_uplink(st, ind).uplink.drop_last() =~= st.uplink);
}

/// An SN-DATA from a terminal whose context is ready, in standby or waiting for its link adds
/// exactly one packet to the end of the queue for the gateway. The context is ready
/// afterwards and waits for nothing. Nothing is sent.
pub proof fn law_data_reaches_gateway(st: SndcpView, ind: LtpdIndView, i: int, n_pdu: Seq<u8>)
    requires
        st.wf(),
        from_terminal(st, ind, i),
        ind.pdu == (SnUplinkView::Data { nsapi: st.contexts[i].key.nsapi, n_pdu }),
        st.contexts[i].state == PdpState::Ready || st.contexts[i].state == PdpState::Standby
            || st.contexts[i].state == PdpState::WaitingForAlSetup,
    ensures
        ({
            let t = after_uplink(st, ind);
            &&& t.uplink.len() == st.uplink.len() + 1
            &&& t.uplink.drop_last() == st.uplink
            &&& t.uplink.last().main_address == ind.received_tetra_address
            &&& t.uplink.last().nsapi == st.contexts[i].key.nsapi
            &&& t.uplink.last().payload == n_pdu
            &&& only_context(st, t, i)
            &&& revived(st.contexts[i], t.contexts[i], ind, st.dltime)
            &&& t.contexts[i].resp_wait_deadline is None
            &&& uplink_msgs(st, ind).len() == 0
        }),
{
    lemma_found(st, i);
    assert(after_uplink(st, ind).uplink.drop_last() =~= st.uplink);
}

/// A packet from a terminal goes nowhere while its context is being accepted, paged or
/// released; an SN-UNITDATA also while the context waits for its link.
pub proof fn law_packet_out_of_turn_is_dropped(st: SndcpView, ind: LtpdIndView, i: int, payload: Seq<u8>)
    requires
        st.wf(),
        from_terminal(st, ind, i),
        ({
            let s = st.contexts[i].state;
            let n = st.contexts[i].key.nsapi;
            let shut = s == PdpState::WaitForAccept || s == PdpState::WaitForPageResponse || s
                == PdpState::Deactivating;
            ||| ind.pdu == (SnUplinkView::Unitdata { nsapi: n, payload }) && (shut || s
                == PdpState::WaitingForAlSetup)
            ||| ind.pdu == (SnUplinkView::Data { nsapi: n, n_pdu: payload }) && shut
        }),
    ensures
        after_uplink(st, ind) == st,
        uplink_msgs(st, ind).len() == 0,
{
    lemma_found(st, i);
}

/// A PDU for a context that does not exist changes nothing, and neither does one that is not
/// served. Only a request to transmit is answered.
pub proof fn law_unknown_context_is_left_unserved(st: SndcpView, ind: LtpdIndView, nsapi: u8)
    requires
        st.wf(),
        no_context(st, ind.received_tetra_address.ssi, nsapi),
        match ind.pdu {
            SnUplinkView::DeactivatePdpContextDemand { nsapi: n } => n == nsapi,
            SnUplinkView::DeactivatePdpContextAccept { nsapi: n } => n == nsapi,
            SnUplinkView::Unitdata { nsapi: n, payload } => n == nsapi,
            SnUplinkView::Data { nsapi: n, n_pdu } => n == nsapi,
            SnUplinkView::DataTransmitRequest { nsapi: n } => n == nsapi,
            SnUplinkView::PageResponse { nsapi: n } => n == nsapi,
            SnUplinkView::Reconnect { target } => target == Some(nsapi),
            SnUplinkView::Other | SnUplinkView::Malformed => true,
            _ => false,
        },
    ensures
        after_uplink(st, ind) == st,
        if ind.pdu is DataTransmitRequest {
            answers(
                uplink_msgs(st, ind),
                ind,
                SnDownlinkView::DataTransmitResponse {
                    nsapi,
                    refused: Some(TransmitResponseRejectCause::UnknownNsapi),
                },
                None,
            )
        } else {
            uplink_msgs(st, ind).len() == 0
        },
{
    lemma_not_found(st, ind.received_tetra_address.ssi, nsapi);
    if ind.pdu is Reconnect {
        assert(after_uplink(st, ind).contexts =~= st.contexts);
    }
}

// ---- the request to transmit -----------------------------------------------------------------

/// The grant names timeslot 4 alone, in both directions, beside the control channel and on
/// the main carrier.
pub open spec fn grants_timeslot_4(g: CmceChanAllocReq) -> bool {
    &&& !g.timeslots.ts1 && !g.timeslots.ts2 && !g.timeslots.ts3 && g.timeslots.ts4
    &&& g.alloc_type == ChanAllocType::Additional
    &&& g.ul_dl_assigned == UlDlAssignment::Both
    &&& g.usage is None && g.carrier is None
}

/// A request to transmit for a context that is ready, in standby or already waiting for its
/// link is accepted with a grant, and the context then waits for its link.
pub proof fn law_transmit_request_accepted(st: SndcpView, ind: LtpdIndView, i: int)
    requires
        st.wf(),
        from_terminal(st, ind, i),
        ind.pdu == (SnUplinkView::DataTransmitRequest { nsapi: st.contexts[i].key.nsapi }),
        st.contexts[i].state == PdpState::Ready || st.contexts[i].state == PdpState::Standby
            || st.contexts[i].state == PdpState::WaitingForAlSetup,
    ensures
        ({
            let t = after_uplink(st, ind);
            let c = st.contexts[i];
            let d = t.contexts[i];
            let msgs = uplink_msgs(st, ind);
            &&& exists|g: CmceChanAllocReq| #[trigger]
                grants_timeslot_4(g) && answers(
                    msgs,
                    ind,
                    SnDownlinkView::DataTransmitResponse { nsapi: c.key.nsapi, refused: None },
                    Some(g),
                )
            &&& only_context(st, t, i)
            &&& t.uplink == st.uplink
            &&& same_identity(c, d)
            &&& d.state == PdpState::WaitingForAlSetup
            &&& d.resp_wait_deadline == due(st.dltime, RESP_WAIT_TIMER_SLOTS)
            &&& d.ready_deadline == c.ready_deadline && d.standby_deadline == c.standby_deadline
            &&& d.last_activity == c.last_activity && d.pending == c.pending && d.al_link
                == c.al_link
        }),
{
    lemma_found(st, i);
    let msgs = uplink_msgs(st, ind);
    if let SapInnerView::LtpdMleUnitdataReq(req) = msgs[0].msg {
        assert(grants_timeslot_4(req.chan_alloc->0));
    }
}

/// A request to transmit is put off while the context is being accepted, paged or released,
/// and changes nothing.
pub proof fn law_transmit_request_put_off(st: SndcpView, ind: LtpdIndView, i: int)
    requires
        st.wf(),
        from_terminal(st, ind, i),
        ind.pdu == (SnUplinkView::DataTransmitRequest { nsapi: st.contexts[i].key.nsapi }),
        st.contexts[i].state == PdpState::WaitForAccept || st.contexts[i].state
            == PdpState::WaitForPageResponse || st.contexts[i].state == PdpState::Deactivating,
    ensures
        after_uplink(st, ind) == st,
        answers(
            uplink_msgs(st, ind),
            ind,
            SnDownlinkView::DataTransmitResponse {
                nsapi: st.contexts[i].key.nsapi,
                refused: Some(TransmitResponseRejectCause::SndcpServiceTemporarilyNotAvailable),
            },
            None,
        ),
{
    lemma_found(st, i);
}

// ---- activation ------------------------------------------------------------------------------

/// The entry is a CHAP packet with this code: it has an identifier.
pub open spec fn chap_entry(d: DemandView, i: int, code: u8) -> bool {
    d.pco matches Some(p) && 0 <= i < p.len() && p[i].protocol_identity
        == crate::sndcp::pdus::ProtocolIdentity::Chap && p[i].contents.len() >= 2
        && p[i].contents[0] == code
}

/// The demand holds no CHAP packet with this code.
pub open spec fn no_chap(d: DemandView, code: u8) -> bool {
    forall|i: int| !chap_entry(d, i, code)
}

/// Entry `i` is the CHAP packet to answer: the first response, or the first challenge where
/// there is no response.
pub open spec fn chap_to_answer(d: DemandView, i: int) -> bool {
    ||| chap_entry(d, i, 2) && forall|j: int| j < i ==> !chap_entry(d, j, 2)
    ||| no_chap(d, 2) && chap_entry(d, i, 1) && forall|j: int| j < i ==> !chap_entry(d, j, 1)
}

/// The accept says of the context what the configuration says: each timer, the priority and
/// the MTU under its own name, no compression. An MTU without a code counts as 1500.
pub open spec fn announces_settings(st: SndcpView, a: ActivatePdpContextAccept) -> bool {
    &&& a.ready_timer == st.config.timers.ready_timer
    &&& a.standby_timer == st.config.timers.standby_timer
    &&& a.response_wait_timer == st.config.timers.resp_wait_timer
    &&& a.pdu_priority_max == st.config.timers.pdu_priority_max
    &&& a.pcomp == 0 && a.vj_slots is None && a.snei is None
    &&& a.mtu < VALID_MTU_VALUES@.len()
    &&& VALID_MTU_VALUES@[a.mtu as int] == (if VALID_MTU_VALUES@.contains(st.config.mtu) {
        st.config.mtu
    } else {
        1500u16
    })
}

/// The demand is answered with an accept of address `ip`, and a context is made: ready, with
/// this address, for this terminal and NSAPI, reached over the link of the demand. The accept
/// announces the settings of the configuration and confirms a CHAP packet by its identifier.
pub open spec fn activated(st: SndcpView, ind: LtpdIndView, d: DemandView, ip: Ipv4Addr, tia: Tia) -> bool {
    let t = after_uplink(st, ind);
    let n = st.contexts.len() as int;
    let c = t.contexts[n];
    let a = c.last_accept;
    &&& answers(
        uplink_msgs(st, ind),
        ind,
        SnDownlinkView::ActivatePdpContextAccept(a),
        None,
    )
    &&& announces_settings(st, a)
    &&& a.nsapi == d.nsapi && a.ip4_address == Some(ip) && a.tia == tia
    &&& (no_chap(d, 1) && no_chap(d, 2)) <==> a.pco is None
    &&& forall|i: int| #[trigger]
        chap_to_answer(d, i) ==> (a.pco matches Some(p) && p.code == 3 && p.length == 4 && p.id
            == d.pco->0[i].contents[1])
    &&& t.contexts.len() == n + 1
    &&& forall|k: int| 0 <= k < n ==> #[trigger] t.contexts[k] == st.contexts[k]
    &&& c.key.ssi == ind.received_tetra_address.ssi && c.key.nsapi == d.nsapi
    &&& c.ipv4 == ip && c.tia == tia
    &&& c.state == PdpState::Ready
    &&& c.ready_deadline == due(st.dltime, READY_TIMER_SLOTS)
    &&& c.standby_deadline is None && c.resp_wait_deadline is None
    &&& c.last_activity == st.dltime
    &&& c.pending.len() == 0 && c.al_link is None
    &&& c.link_id == ind.link_id && c.endpoint_id == ind.endpoint_id
    &&& forall|a: u32| #[trigger] t.pool.contains(a) <==> st.pool.contains(a) && a != ip.bits
    &&& t.by_ip.contains_key(ip.bits) && t.by_ip[ip.bits] == c.key
    &&& forall|a: u32|
        a != ip.bits ==> (#[trigger] t.by_ip.contains_key(a) <==> st.by_ip.contains_key(a)) && (
        st.by_ip.contains_key(a) ==> t.by_ip[a] == st.by_ip[a])
    &&& t.config == st.config && t.uplink == st.uplink && t.dltime == st.dltime
}

/// The identifier that a demand's CHAP packet is confirmed by.
proof fn lemma_chap(d: DemandView)
    ensures
        (no_chap(d, 1) && no_chap(d, 2)) <==> chap_id(d.pco) is None,
        forall|i: int| #[trigger]
            chap_to_answer(d, i) ==> chap_id(d.pco) == Some(d.pco->0[i].contents[1]),
{
    if d.pco is Some {
        let p = d.pco->0;
        assert forall|i: int, code: u8| #[trigger] chap_entry(d, i, code) == (0 <= i < p.len()
            && is_chap(p[i], code)) by {}
        assert forall|code: u8| (#[trigger] no_chap(d, code)) <==> chap_id_of(p, code) is None by {
            if !no_chap(d, code) {
                let i = choose|i: int| chap_entry(d, i, code);
                lemma_first_entry(d, i, code);
            } else {
                assert forall|i: int| !is_first_chap(p, code, i) by {
                    assert(!chap_entry(d, i, code));
                }
            }
        }
        assert forall|i: int| #[trigger] chap_to_answer(d, i) implies chap_id(d.pco) == Some(
            p[i].contents[1],
        ) by {
            let code: u8 = if no_chap(d, 2) {
                1
            } else {
                2
            };
            assert(chap_entry(d, i, code));
            assert forall|j: int| 0 <= j < i implies !is_chap(#[trigger] p[j], code) by {
                assert(!chap_entry(d, j, code));
            }
            assert(is_first_chap(p, code, i));
            let c = choose|c: int| is_first_chap(p, code, c);
            assert(is_first_chap(p, code, c));
            assert(c == i);
        }
    }
}

proof fn lemma_first_entry(d: DemandView, i: int, code: u8)
    requires
        chap_entry(d, i, code),
    ensures
        exists|k: int| is_first_chap(d.pco->0, code, k),
    decreases i,
{
    let p = d.pco->0;
    if exists|j: int| 0 <= j < i && is_chap(#[trigger] p[j], code) {
        let j = choose|j: int| 0 <= j < i && is_chap(#[trigger] p[j], code);
        assert(chap_entry(d, j, code));
        lemma_first_entry(d, j, code);
    } else {
        assert(is_first_chap(p, code, i));
    }
}

/// The code of an MTU stands for that MTU.
proof fn lemma_mtu(mtu: u16)
    ensures
        match mtu_code(mtu) {
            Some(c) => c < VALID_MTU_VALUES@.len() && VALID_MTU_VALUES@[c as int] == mtu
                && VALID_MTU_VALUES@.contains(mtu),
            None => !VALID_MTU_VALUES@.contains(mtu),
        },
        VALID_MTU_VALUES@.len() == 7,
        VALID_MTU_VALUES@[4] == 1500,
{
    let v = VALID_MTU_VALUES@;
    assert(v.len() == 7);
    assert(v[0] == 256 && v[1] == 512 && v[2] == 1024 && v[3] == 1280 && v[4] == 1500 && v[5]
        == 2048 && v[6] == 4096);
}

/// An activation that is accepted has all that belongs to it.
proof fn lemma_activated(st: SndcpView, ind: LtpdIndView, d: DemandView, ip: Ipv4Addr, tia: Tia)
    requires
        st.wf(),
        ind.pdu == SnUplinkView::ActivatePdpContextDemand(d),
        activation(
            st,
            PdpKey { ssi: ind.received_tetra_address.ssi, nsapi: d.nsapi },
            d,
        ) == Activation::Accept(ip, tia),
    ensures
        activated(st, ind, d, ip, tia),
{
    lemma_chap(d);
    lemma_mtu(st.config.mtu);
}

/// A demand for a static address gets the address it names, or the first of the subnet where
/// it names none, exactly if that address is free in the pool. Otherwise it is refused and
/// nothing changes.
pub proof fn law_static_demand(st: SndcpView, ind: LtpdIndView, d: DemandView, ip: Ipv4Addr)
    requires
        st.wf(),
        ind.pdu == SnUplinkView::ActivatePdpContextDemand(d),
        no_context(st, ind.received_tetra_address.ssi, d.nsapi),
        d.atid == 0,
        match d.ip_address {
            Some(a) => ip == a,
            None => ip == st.config.ipv4_pool_base,
        },
    ensures
        st.pool.contains(ip.bits) ==> activated(st, ind, d, ip, Tia::Ipv4Static),
        !st.pool.contains(ip.bits) ==> after_uplink(st, ind) == st && answers(
            uplink_msgs(st, ind),
            ind,
            SnDownlinkView::ActivatePdpContextReject {
                nsapi: d.nsapi,
                reject_cause: RejectCause::RequestedStaticIpv4NotAvailable,
            },
            None,
        ),
{
    lemma_not_found(st, ind.received_tetra_address.ssi, d.nsapi);
    if st.pool.contains(ip.bits) {
        lemma_activated(st, ind, d, ip, Tia::Ipv4Static);
    }
}

/// Lease `i` is kept for this terminal and nobody uses it.
pub open spec fn has_lease(st: SndcpView, ssi: u32, i: int) -> bool {
    &&& 0 <= i < st.config.static_lease@.len()
    &&& st.config.static_lease@[i].issi == ssi
    &&& !in_use(st.contexts, st.config.static_lease@[i].ipv4.bits)
}

proof fn lemma_has_lease(st: SndcpView, ssi: u32, i: int)
    requires
        st.wf(),
    ensures
        has_lease(st, ssi, i) <==> lease_usable(st, ssi, i),
{
    reveal(SndcpView::wf);
}

/// A demand for a dynamic address gets the first lease of its terminal that nobody uses.
pub proof fn law_dynamic_demand_with_lease(st: SndcpView, ind: LtpdIndView, d: DemandView, i: int)
    requires
        st.wf(),
        ind.pdu == SnUplinkView::ActivatePdpContextDemand(d),
        no_context(st, ind.received_tetra_address.ssi, d.nsapi),
        d.atid != 0,
        has_lease(st, ind.received_tetra_address.ssi, i),
        forall|j: int| 0 <= j < i ==> !has_lease(st, ind.received_tetra_address.ssi, j),
    ensures
        activated(st, ind, d, st.config.static_lease@[i].ipv4, Tia::Ipv4Dynamic),
{
    let ssi = ind.received_tetra_address.ssi;
    lemma_not_found(st, ssi, d.nsapi);
    lemma_has_lease(st, ssi, i);
    assert forall|j: int| 0 <= j < i implies !lease_usable(st, ssi, j) by {
        lemma_has_lease(st, ssi, j);
    }
    assert(lease_first(st, ssi, i));
    let c = choose|c: int| lease_first(st, ssi, c);
    assert(lease_first(st, ssi, c));
    assert(c == i);
    lemma_activated(st, ind, d, st.config.static_lease@[i].ipv4, Tia::Ipv4Dynamic);
}

/// Without such a lease it gets the lowest address of the pool, or is refused for want of one.
pub proof fn law_dynamic_demand_without_lease(st: SndcpView, ind: LtpdIndView, d: DemandView)
    requires
        st.wf(),
        ind.pdu == SnUplinkView::ActivatePdpContextDemand(d),
        no_context(st, ind.received_tetra_address.ssi, d.nsapi),
        d.atid != 0,
        forall|i: int| !has_lease(st, ind.received_tetra_address.ssi, i),
    ensures
        forall|ip: Ipv4Addr|
            st.pool.contains(ip.bits) && (forall|b: u32| #[trigger]
                st.pool.contains(b) ==> ip.bits <= b) ==> #[trigger] activated(
                st,
                ind,
                d,
                ip,
                Tia::Ipv4Dynamic,
            ),
        (forall|b: u32| !st.pool.contains(b)) ==> after_uplink(st, ind) == st && answers(
            uplink_msgs(st, ind),
            ind,
            SnDownlinkView::ActivatePdpContextReject {
                nsapi: d.nsapi,
                reject_cause: RejectCause::NoResource,
            },
            None,
        ),
        (exists|b: u32| st.pool.contains(b)) ==> exists|ip: Ipv4Addr| #[trigger]
            activated(st, ind, d, ip, Tia::Ipv4Dynamic),
{
    let ssi = ind.received_tetra_address.ssi;
    let key = PdpKey { ssi, nsapi: d.nsapi };
    lemma_not_found(st, ssi, d.nsapi);
    assert forall|i: int| !lease_first(st, ssi, i) by {
        lemma_has_lease(st, ssi, i);
        assert(!has_lease(st, ssi, i));
    }
    assert(free_lease(st, ssi) is None);
    if exists|b: u32| st.pool.contains(b) {
        let b = choose|b: u32| st.pool.contains(b);
        assert(st.pool != Set::<u32>::empty());
        law_dynamic_address_is_lowest(st, key, d);
        if let Activation::Accept(ip, tia) = activation(st, key, d) {
            lemma_activated(st, ind, d, ip, tia);
            assert forall|o: Ipv4Addr|
                st.pool.contains(o.bits) && (forall|b: u32| #[trigger]
                    st.pool.contains(b) ==> o.bits <= b) implies #[trigger] activated(
                st,
                ind,
                d,
                o,
                Tia::Ipv4Dynamic,
            ) by {
                assert(o.bits <= ip.bits && ip.bits <= o.bits);
                assert(o == ip);
            }
        }
    } else {
        assert(st.pool =~= Set::<u32>::empty());
    }
}

/// A demand for a context that is up, or that has not been confirmed, is answered with the
/// accept that was sent before. Nothing of the context changes but the time to wait.
pub proof fn law_demand_for_live_context(st: SndcpView, ind: LtpdIndView, d: DemandView, i: int)
    requires
        st.wf(),
        from_terminal(st, ind, i),
        ind.pdu == SnUplinkView::ActivatePdpContextDemand(d),
        d.nsapi == st.contexts[i].key.nsapi,
        st.contexts[i].state == PdpState::WaitForAccept || st.contexts[i].state == PdpState::Ready
            || st.contexts[i].state == PdpState::Standby,
    ensures
        ({
            let t = after_uplink(st, ind);
            &&& answers(
                uplink_msgs(st, ind),
                ind,
                SnDownlinkView::ActivatePdpContextAccept(st.contexts[i].last_accept),
                None,
            )
            &&& only_context(st, t, i)
            &&& t.uplink == st.uplink
            &&& t.contexts[i].resp_wait_deadline == due(st.dltime, RESP_WAIT_TIMER_SLOTS)
            &&& same_but_wait(st.contexts[i], t.contexts[i])
        }),
{
    lemma_found(st, i);
}

/// The contexts are the same but for the time that an answer may take.
pub open spec fn same_but_wait(c: CtxView, d: CtxView) -> bool {
    &&& same_identity(c, d)
    &&& d.state == c.state && d.last_activity == c.last_activity
    &&& d.ready_deadline == c.ready_deadline && d.standby_deadline == c.standby_deadline
    &&& d.pending == c.pending && d.al_link == c.al_link
}

/// A demand for a context that waits for its link, is paged or is being released is refused
/// as already active, and changes nothing.
pub proof fn law_demand_in_transition(st: SndcpView, ind: LtpdIndView, d: DemandView, i: int)
    requires
        st.wf(),
        from_terminal(st, ind, i),
        ind.pdu == SnUplinkView::ActivatePdpContextDemand(d),
        d.nsapi == st.contexts[i].key.nsapi,
        st.contexts[i].state == PdpState::WaitingForAlSetup || st.contexts[i].state
            == PdpState::WaitForPageResponse || st.contexts[i].state == PdpState::Deactivating,
    ensures
        after_uplink(st, ind) == st,
        answers(
            uplink_msgs(st, ind),
            ind,
            SnDownlinkView::ActivatePdpContextReject {
                nsapi: d.nsapi,
                reject_cause: RejectCause::PdpContextAlreadyActive,
            },
            None,
        ),
{
    lemma_found(st, i);
}

/// Every context was told the settings of the configuration, its own NSAPI and its own
/// address.
pub open spec fn accepts_true(st: SndcpView) -> bool {
    forall|i: int|
        0 <= i < st.contexts.len() ==> announces_settings(
            st,
            (#[trigger] st.contexts[i]).last_accept,
        ) && st.contexts[i].last_accept.nsapi == st.contexts[i].key.nsapi
            && st.contexts[i].last_accept.ip4_address == Some(st.contexts[i].ipv4)
            && st.contexts[i].last_accept.tia == st.contexts[i].tia
}

/// In every accept the ready, standby and response-wait timers, the priority and the MTU are
/// the settings of the same name: no PDU of a terminal makes a context that was told
/// otherwise, and every accept that is sent is that of a context.
pub proof fn law_every_accept_is_true(st: SndcpView, ind: LtpdIndView)
    requires
        st.wf(),
        accepts_true(st),
    ensures
        accepts_true(after_uplink(st, ind)),
        forall|k: int|
            0 <= k < uplink_msgs(st, ind).len() ==> (
            (#[trigger] uplink_msgs(st, ind)[k]).msg matches SapInnerView::LtpdMleUnitdataReq(req)
                ==> (req.pdu matches SnDownlinkView::ActivatePdpContextAccept(a)
                ==> announces_settings(st, a))),
{
    match ind.pdu {
        SnUplinkView::ActivatePdpContextDemand(d) => {
            lemma_demand_keeps_accepts(st, ind, d);
        },
        _ => {
            lemma_no_accept_sent(st, ind);
            lemma_contexts_carried(st, ind);
            let t = after_uplink(st, ind);
            assert forall|k: int| 0 <= k < t.contexts.len() implies announces_settings(
                t,
                (#[trigger] t.contexts[k]).last_accept,
            ) && t.contexts[k].last_accept.nsapi == t.contexts[k].key.nsapi
                && t.contexts[k].last_accept.ip4_address == Some(t.contexts[k].ipv4)
                && t.contexts[k].last_accept.tia == t.contexts[k].tia by {
                assert(carried(st, t.contexts[k]));
                let i = choose|i: int|
                    0 <= i < st.contexts.len() && same_identity(
                        #[trigger] st.contexts[i],
                        t.contexts[k],
                    );
                assert(announces_settings(st, st.contexts[i].last_accept));
            }
        },
    }
}

proof fn lemma_demand_keeps_accepts(st: SndcpView, ind: LtpdIndView, d: DemandView)
    requires
        st.wf(),
        accepts_true(st),
        ind.pdu == SnUplinkView::ActivatePdpContextDemand(d),
    ensures
        accepts_true(after_uplink(st, ind)),
        uplink_msgs(st, ind).len() == 1,
        uplink_msgs(st, ind)[0].msg matches SapInnerView::LtpdMleUnitdataReq(req) ==> (
        req.pdu matches SnDownlinkView::ActivatePdpContextAccept(a) ==> announces_settings(st, a)),
{
    let key = PdpKey { ssi: ind.received_tetra_address.ssi, nsapi: d.nsapi };
    if let Some(i) = ctx_pos(st.contexts, key) {
        assert(has_ctx(st.contexts, key, i));
        assert(announces_settings(st, st.contexts[i].last_accept));
    }
    if let Activation::Accept(ip, tia) = activation(st, key, d) {
        lemma_activated(st, ind, d, ip, tia);
        let t = after_uplink(st, ind);
        assert forall|k: int| 0 <= k < t.contexts.len() implies announces_settings(
            t,
            (#[trigger] t.contexts[k]).last_accept,
        ) by {
            if k < st.contexts.len() {
                assert(announces_settings(st, st.contexts[k].last_accept));
            }
        }
    }
}

/// No PDU other than a demand is answered with an accept.
proof fn lemma_no_accept_sent(st: SndcpView, ind: LtpdIndView)
    requires
        !(ind.pdu is ActivatePdpContextDemand),
    ensures
        forall|k: int|
            0 <= k < uplink_msgs(st, ind).len() ==> (
            (#[trigger] uplink_msgs(st, ind)[k]).msg matches SapInnerView::LtpdMleUnitdataReq(req)
                ==> !(req.pdu is ActivatePdpContextAccept)),
{
}

/// The context was there before.
spec fn carried(st: SndcpView, c: CtxView) -> bool {
    exists|i: int| 0 <= i < st.contexts.len() && same_identity(#[trigger] st.contexts[i], c)
}

/// Every context that a PDU other than a demand leaves behind was there before.
#[verifier::rlimit(40)]
proof fn lemma_contexts_carried(st: SndcpView, ind: LtpdIndView)
    requires
        st.wf(),
        !(ind.pdu is ActivatePdpContextDemand),
    ensures
        after_uplink(st, ind).config == st.config,
        forall|k: int|
            0 <= k < after_uplink(st, ind).contexts.len() ==> carried(
                st,
                #[trigger] after_uplink(st, ind).contexts[k],
            ),
{
    let t = after_uplink(st, ind);
    let ssi = ind.received_tetra_address.ssi;
    let nsapi = match ind.pdu {
        SnUplinkView::DeactivatePdpContextDemand { nsapi } => nsapi,
        SnUplinkView::DeactivatePdpContextAccept { nsapi } => nsapi,
        SnUplinkView::Unitdata { nsapi, payload } => nsapi,
        SnUplinkView::Data { nsapi, n_pdu } => nsapi,
        SnUplinkView::DataTransmitRequest { nsapi } => nsapi,
        SnUplinkView::PageResponse { nsapi } => nsapi,
        _ => 0u8,
    };
    let key = PdpKey { ssi, nsapi };
    if let Some(i) = ctx_pos(st.contexts, key) {
        assert(has_ctx(st.contexts, key, i));
    }
    assert forall|k: int| 0 <= k < t.contexts.len() implies carried(
        st,
        #[trigger] t.contexts[k],
    ) by {
        if t.contexts.len() < st.contexts.len() {
            let i = ctx_pos(st.contexts, key)->0;
            let j = if k < i {
                k
            } else {
                k + 1
            };
            assert(same_identity(st.contexts[j], t.contexts[k]));
        } else {
            assert(same_identity(st.contexts[k], t.contexts[k]));
        }
    }
}

// ---- release ---------------------------------------------------------------------------------

/// Context `i` is gone and the others are what they were.
pub open spec fn context_gone(st: SndcpView, t: SndcpView, i: int) -> bool {
    let ip = st.contexts[i].ipv4.bits;
    &&& t.contexts.len() == st.contexts.len() - 1
    &&& forall|k: int| 0 <= k < i ==> #[trigger] t.contexts[k] == st.contexts[k]
    &&& forall|k: int| i <= k < t.contexts.len() ==> #[trigger] t.contexts[k] == st.contexts[k + 1]
    &&& !t.by_ip.contains_key(ip)
    &&& forall|a: u32|
        a != ip ==> (#[trigger] t.by_ip.contains_key(a) <==> st.by_ip.contains_key(a)) && (
        st.by_ip.contains_key(a) ==> t.by_ip[a] == st.by_ip[a]) && (t.pool.contains(a)
            <==> st.pool.contains(a))
    &&& t.config == st.config && t.uplink == st.uplink && t.dltime == st.dltime
}

proof fn lemma_gone(st: SndcpView, i: int)
    requires
        0 <= i < st.contexts.len(),
    ensures
        context_gone(st, st.release(i), i),
{
}

/// A demand to deactivate is confirmed, whatever the state of the context, and the context is
/// gone.
pub proof fn law_deactivation_demand(st: SndcpView, ind: LtpdIndView, i: int)
    requires
        st.wf(),
        from_terminal(st, ind, i),
        ind.pdu == (SnUplinkView::DeactivatePdpContextDemand {
            nsapi: st.contexts[i].key.nsapi,
        }),
    ensures
        answers(
            uplink_msgs(st, ind),
            ind,
            SnDownlinkView::DeactivatePdpContextAccept { nsapi: st.contexts[i].key.nsapi },
            None,
        ),
        context_gone(st, after_uplink(st, ind), i),
{
    lemma_found(st, i);
    lemma_gone(st, i);
}

/// A deactivation that the terminal confirms ends the context exactly if it is being released;
/// nothing is sent.
pub proof fn law_deactivation_confirmed(st: SndcpView, ind: LtpdIndView, i: int)
    requires
        st.wf(),
        from_terminal(st, ind, i),
        ind.pdu == (SnUplinkView::DeactivatePdpContextAccept {
            nsapi: st.contexts[i].key.nsapi,
        }),
    ensures
        uplink_msgs(st, ind).len() == 0,
        st.contexts[i].state == PdpState::Deactivating ==> context_gone(
            st,
            after_uplink(st, ind),
            i,
        ),
        st.contexts[i].state != PdpState::Deactivating ==> after_uplink(st, ind) == st,
{
    lemma_found(st, i);
    lemma_gone(st, i);
}

// ---- paging and standby ----------------------------------------------------------------------

/// A page that is answered makes the context ready, and every packet that waited goes out in
/// its order, unconfirmed, over the basic link of the context. In any other state the answer
/// does nothing.
pub proof fn law_page_response(st: SndcpView, ind: LtpdIndView, i: int)
    requires
        st.wf(),
        from_terminal(st, ind, i),
        ind.pdu == (SnUplinkView::PageResponse { nsapi: st.contexts[i].key.nsapi }),
    ensures
        st.contexts[i].state != PdpState::WaitForPageResponse ==> after_uplink(st, ind) == st
            && uplink_msgs(st, ind).len() == 0,
        st.contexts[i].state == PdpState::WaitForPageResponse ==> {
            let t = after_uplink(st, ind);
            let c = st.contexts[i];
            let d = t.contexts[i];
            let msgs = uplink_msgs(st, ind);
            &&& only_context(st, t, i)
            &&& t.uplink == st.uplink
            &&& same_identity(c, d)
            &&& d.state == PdpState::Ready
            &&& d.ready_deadline == due(st.dltime, READY_TIMER_SLOTS)
            &&& d.standby_deadline is None
            &&& d.last_activity == st.dltime
            &&& d.resp_wait_deadline == c.resp_wait_deadline && d.al_link == c.al_link
            &&& d.pending.len() == 0
            &&& msgs.len() == c.pending.len()
            &&& forall|k: int|
                0 <= k < msgs.len() ==> is_unitdata(
                    #[trigger] msgs[k],
                    ind.received_tetra_address,
                    c,
                    c.pending[k],
                )
        },
{
    lemma_found(st, i);
}

/// The message is an unconfirmed packet for a context, over its basic link.
pub open spec fn is_unitdata(m: SapMsgView, to: TetraAddress, c: CtxView, payload: Seq<u8>) -> bool {
    &&& carries(
        m,
        to,
        SnDownlinkView::Unitdata { nsapi: c.key.nsapi, pcomp: 0, dcomp: 0, payload },
    )
    &&& goes_over(m, c.link_id, c.endpoint_id, None)
    &&& is_packet(m, Layer2Service::Unacknowledged)
}

/// An end of data puts every ready context of the terminal into standby and touches no other.
pub proof fn law_end_of_data(st: SndcpView, ind: LtpdIndView, immediate: bool)
    requires
        st.wf(),
        ind.pdu == (SnUplinkView::EndOfData { immediate_service_change: immediate }),
    ensures
        ({
            let t = after_uplink(st, ind);
            &&& uplink_msgs(st, ind).len() == 0
            &&& t.contexts.len() == st.contexts.len()
            &&& t == (SndcpView { contexts: t.contexts, ..st })
            &&& forall|k: int|
                0 <= k < st.contexts.len() ==> {
                    let c = st.contexts[k];
                    let d = #[trigger] t.contexts[k];
                    if c.key.ssi == ind.received_tetra_address.ssi && c.state == PdpState::Ready {
                        in_standby(c, d, st.dltime)
                    } else {
                        d == c
                    }
                }
        }),
{
    let t = after_uplink(st, ind);
    let ssi = ind.received_tetra_address.ssi;
    assert(t == after_end_of_data(st, ssi));
    assert forall|k: int| 0 <= k < st.contexts.len() implies {
        let c = st.contexts[k];
        let d = #[trigger] t.contexts[k];
        if c.key.ssi == ssi && c.state == PdpState::Ready {
            in_standby(c, d, st.dltime)
        } else {
            d == c
        }
    } by {
        let c = st.contexts[k];
        if c.key.ssi == ssi && c.state == PdpState::Ready {
            assert(t.contexts[k] == standby_ctx(c, st.dltime));
        }
    }
}

/// The context went to standby at `now`.
pub open spec fn in_standby(c: CtxView, d: CtxView, now: TdmaTime) -> bool {
    &&& same_identity(c, d)
    &&& d.state == PdpState::Standby
    &&& d.standby_deadline == due(now, STANDBY_TIMER_SLOTS)
    &&& d.ready_deadline is None
    &&& d.resp_wait_deadline == c.resp_wait_deadline && d.last_activity == c.last_activity
    &&& d.pending == c.pending && d.al_link == c.al_link
}

/// A reconnection calls back from standby the context that it names, or every context of the
/// terminal where it names none, and touches no other.
pub proof fn law_reconnect(st: SndcpView, ind: LtpdIndView, target: Option<u8>)
    requires
        st.wf(),
        ind.pdu == (SnUplinkView::Reconnect { target }),
    ensures
        ({
            let t = after_uplink(st, ind);
            &&& uplink_msgs(st, ind).len() == 0
            &&& t.contexts.len() == st.contexts.len()
            &&& t == (SndcpView { contexts: t.contexts, ..st })
            &&& forall|k: int|
                0 <= k < st.contexts.len() ==> {
                    let c = st.contexts[k];
                    let d = #[trigger] t.contexts[k];
                    if c.state == PdpState::Standby && c.key.ssi == ind.received_tetra_address.ssi
                        && (target is None || target == Some(c.key.nsapi)) {
                        &&& same_identity(c, d)
                        &&& d.state == PdpState::Ready
                        &&& d.ready_deadline == due(st.dltime, READY_TIMER_SLOTS)
                        &&& d.standby_deadline is None
                        &&& d.resp_wait_deadline == c.resp_wait_deadline
                        &&& d.last_activity == c.last_activity && d.pending == c.pending
                            && d.al_link == c.al_link
                    } else {
                        d == c
                    }
                }
        }),
{
}

// ---- packets for a terminal ------------------------------------------------------------------

/// The address of a context's terminal.
pub open spec fn terminal(c: CtxView) -> TetraAddress {
    TetraAddress { ssi: c.key.ssi, ssi_type: SsiType::Issi }
}

/// The context is as it was, with its timer started afresh.
pub open spec fn kept_alive(c: CtxView, d: CtxView, now: TdmaTime) -> bool {
    &&& same_identity(c, d)
    &&& d.state == c.state
    &&& d.ready_deadline == due(now, READY_TIMER_SLOTS)
    &&& d.last_activity == now
    &&& d.standby_deadline == c.standby_deadline && d.resp_wait_deadline == c.resp_wait_deadline
    &&& d.pending == c.pending && d.al_link == c.al_link
}

/// The packet waits behind those that wait already, and the context is in state `s`.
pub open spec fn packet_waits(c: CtxView, d: CtxView, payload: Seq<u8>, s: PdpState) -> bool {
    &&& same_identity(c, d)
    &&& d.state == s
    &&& d.pending.len() == c.pending.len() + 1
    &&& d.pending.drop_last() == c.pending
    &&& d.pending.last() == payload
    &&& d.ready_deadline == c.ready_deadline && d.standby_deadline == c.standby_deadline
    &&& d.resp_wait_deadline == c.resp_wait_deadline && d.last_activity == c.last_activity
        && d.al_link == c.al_link
}

/// A packet for a terminal goes out unconfirmed when its context is ready. In standby it waits
/// and the terminal is paged once; while the terminal is being paged it waits behind the
/// others; in every other state it is dropped.
pub proof fn law_packet_for_terminal(st: SndcpView, i: int, payload: Seq<u8>)
    requires
        st.wf(),
        0 <= i < st.contexts.len(),
    ensures
        ({
            let c = st.contexts[i];
            let t = after_downlink(st, c.ipv4, payload);
            let d = t.contexts[i];
            let msgs = downlink_msgs(st, c.ipv4, payload);
            match c.state {
                PdpState::Ready => {
                    &&& msgs.len() == 1 && is_unitdata(msgs[0], terminal(c), c, payload)
                    &&& only_context(st, t, i) && t.uplink == st.uplink
                    &&& kept_alive(c, d, st.dltime)
                },
                PdpState::Standby => {
                    &&& msgs.len() == 1
                    &&& carries(
                        msgs[0],
                        terminal(c),
                        SnDownlinkView::PageRequest { nsapi: c.key.nsapi },
                    )
                    &&& goes_over(msgs[0], c.link_id, c.endpoint_id, None)
                    &&& signals(msgs[0], None)
                    &&& only_context(st, t, i) && t.uplink == st.uplink
                    &&& packet_waits(c, d, payload, PdpState::WaitForPageResponse)
                },
                PdpState::WaitForPageResponse => {
                    &&& msgs.len() == 0
                    &&& only_context(st, t, i) && t.uplink == st.uplink
                    &&& packet_waits(c, d, payload, PdpState::WaitForPageResponse)
                },
                PdpState::WaitForAccept | PdpState::WaitingForAlSetup | PdpState::Deactivating => {
                    msgs.len() == 0 && t == st
                },
            }
        }),
{
    law_address_finds_context(st, i);
    let c = st.contexts[i];
    assert(c.pending.push(payload).drop_last() =~= c.pending);
}

/// A packet that is to be confirmed goes out as such when the context is ready: over the
/// advanced link that the terminal last sent data over, or over the basic link of the context
/// where there was none. In every other state it is dropped.
pub proof fn law_confirmed_packet_for_terminal(st: SndcpView, i: int, payload: Seq<u8>)
    requires
        st.wf(),
        0 <= i < st.contexts.len(),
    ensures
        ({
            let c = st.contexts[i];
            let t = after_downlink_acknowledged(st, c.ipv4);
            let msgs = downlink_acknowledged_msgs(st, c.ipv4, payload);
            if c.state == PdpState::Ready {
                &&& msgs.len() == 1 && is_confirmed_data(msgs[0], c, payload)
                &&& only_context(st, t, i) && t.uplink == st.uplink
                &&& kept_alive(c, t.contexts[i], st.dltime)
            } else {
                msgs.len() == 0 && t == st
            }
        }),
{
    law_address_finds_context(st, i);
}

/// The message is a packet for a context that is to be confirmed.
pub open spec fn is_confirmed_data(m: SapMsgView, c: CtxView, payload: Seq<u8>) -> bool {
    &&& carries(
        m,
        terminal(c),
        SnDownlinkView::Data { nsapi: c.key.nsapi, pcomp: 0, dcomp: 0, n_pdu: payload },
    )
    &&& is_packet(m, Layer2Service::Acknowledged)
    &&& match c.al_link {
        Some(a) => goes_over(m, a.link_id, a.endpoint_id, Some(a.al_link_number)),
        None => goes_over(m, c.link_id, c.endpoint_id, None),
    }
}

/// A packet from the gateway never gets lost on a terminal that can be reached: a ready
/// context sends it to be confirmed, one in standby or being paged keeps it.
pub proof fn law_gateway_packet_is_sent_or_kept(st: SndcpView, i: int, payload: Seq<u8>)
    requires
        st.wf(),
        0 <= i < st.contexts.len(),
    ensures
        ({
            let c = st.contexts[i];
            let t = after_gateway_downlink(st, c.ipv4, payload);
            let msgs = gateway_downlink_msgs(st, c.ipv4, payload);
            match c.state {
                PdpState::Ready => {
                    &&& msgs.len() == 1 && is_confirmed_data(msgs[0], c, payload)
                    &&& only_context(st, t, i) && t.uplink == st.uplink
                    &&& kept_alive(c, t.contexts[i], st.dltime)
                },
                PdpState::Standby => {
                    &&& msgs.len() == 1
                    &&& carries(
                        msgs[0],
                        terminal(c),
                        SnDownlinkView::PageRequest { nsapi: c.key.nsapi },
                    )
                    &&& signals(msgs[0], None)
                    &&& only_context(st, t, i) && t.uplink == st.uplink
                    &&& packet_waits(c, t.contexts[i], payload, PdpState::WaitForPageResponse)
                },
                PdpState::WaitForPageResponse => {
                    &&& msgs.len() == 0
                    &&& only_context(st, t, i) && t.uplink == st.uplink
                    &&& packet_waits(c, t.contexts[i], payload, PdpState::WaitForPageResponse)
                },
                _ => msgs.len() == 0 && t == st,
            }
        }),
{
    law_address_finds_context(st, i);
    let c = st.contexts[i];
    assert(c.pending.push(payload).drop_last() =~= c.pending);
}

/// A packet for an address that nobody has leaves no trace, however it is sent.
pub proof fn law_packet_for_nobody(st: SndcpView, ip: Ipv4Addr, payload: Seq<u8>)
    requires
        st.wf(),
        forall|i: int| 0 <= i < st.contexts.len() ==> (#[trigger] st.contexts[i]).ipv4 != ip,
    ensures
        after_downlink(st, ip, payload) == st,
        after_downlink_acknowledged(st, ip) == st,
        after_gateway_downlink(st, ip, payload) == st,
        downlink_msgs(st, ip, payload).len() == 0,
        downlink_acknowledged_msgs(st, ip, payload).len() == 0,
        gateway_downlink_msgs(st, ip, payload).len() == 0,
{
    reveal(SndcpView::wf);
    assert(!in_use(st.contexts, ip.bits)) by {
        if in_use(st.contexts, ip.bits) {
            let k = choose|k: int|
                0 <= k < st.contexts.len() && (#[trigger] st.contexts[k]).ipv4.bits == ip.bits;
            assert(st.contexts[k].ipv4 == ip);
        }
    }
    assert(!st.by_ip.contains_key(ip.bits));
}

// ---- timers ----------------------------------------------------------------------------------

/// The deadline is set and lies before `now`.
pub open spec fn passed(deadline: Option<TdmaTime>, now: TdmaTime) -> bool {
    deadline matches Some(d) && d.slot_index() < now.slot_index()
}

/// What a look at the timers does to a context. A ready one whose deadline has passed goes to
/// standby. One in standby, or waiting to be confirmed, whose deadline has passed is released.
/// Every other context is left as it is.
pub proof fn law_timers(st: SndcpView, i: int)
    requires
        st.wf(),
        0 <= i < st.contexts.len(),
    ensures
        ({
            let c = st.contexts[i];
            let t = after_timers(st);
            let found = find_ctx(t.contexts, c.key);
            if c.state == PdpState::Ready && passed(c.ready_deadline, st.dltime) {
                found matches Some(d) && in_standby(c, d, st.dltime)
            } else if c.state == PdpState::Standby && passed(c.standby_deadline, st.dltime) {
                found is None && !in_use(t.contexts, c.ipv4.bits)
            } else if c.state == PdpState::WaitForAccept && passed(
                c.resp_wait_deadline,
                st.dltime,
            ) {
                found is None && !in_use(t.contexts, c.ipv4.bits)
            } else {
                found == Some(c)
            }
        }),
{
    let c = st.contexts[i];
    if ctx_expired(c, st.dltime) {
        law_expired_context_released(st, i);
        lemma_timer_pass(st, st.contexts.len());
        let t = after_timers(st);
        assert(find_ctx(t.contexts, c.key) is None) by {
            if exists|k: int| has_ctx(t.contexts, c.key, k) {
                let k = choose|k: int| has_ctx(t.contexts, c.key, k);
                let j = choose|j: int|
                    0 <= j < st.contexts.len() && (#[trigger] st.contexts[j]).key
                        == t.contexts[k].key && st.contexts[j].ipv4 == t.contexts[k].ipv4
                        && !ctx_expired(st.contexts[j], st.dltime);
                reveal(SndcpView::wf);
                if j < i {
                    assert(st.contexts[j].key != st.contexts[i].key);
                }
                if i < j {
                    assert(st.contexts[i].key != st.contexts[j].key);
                }
            }
        }
    } else {
        law_timers_keep_live_contexts(st, i);
    }
}

/// The timers make no context and no packet: what is there afterwards was there before, under
/// the same key and with the same address.
pub proof fn law_timers_make_nothing(st: SndcpView, k: int)
    requires
        st.wf(),
        0 <= k < after_timers(st).contexts.len(),
    ensures
        exists|i: int|
            0 <= i < st.contexts.len() && (#[trigger] st.contexts[i]).key == after_timers(
                st,
            ).contexts[k].key && st.contexts[i].ipv4 == after_timers(st).contexts[k].ipv4,
        after_timers(st).uplink == st.uplink,
        after_timers(st).config == st.config,
        after_timers(st).dltime == st.dltime,
{
    lemma_timer_pass(st, st.contexts.len());
}

/// A context that had traffic stays ready for the time set for that, to the slot, and goes to
/// standby at the first look after it, unless the count of hyperframes starts over meanwhile.
pub proof fn law_silence_leads_to_standby(st: SndcpView, ind: LtpdIndView, i: int, payload: Seq<u8>, now: TdmaTime)
    requires
        st.wf(),
        from_terminal(st, ind, i),
        ind.pdu == (SnUplinkView::Unitdata { nsapi: st.contexts[i].key.nsapi, payload }),
        st.contexts[i].state == PdpState::Ready || st.contexts[i].state == PdpState::Standby,
        0 <= st.dltime.slot_index(),
        st.dltime.slot_index() + READY_TIMER_SLOTS < crate::tdma::SLOTS_PER_CYCLE,
    ensures
        ({
            let heard = after_uplink(st, ind);
            let looked = after_timers(SndcpView { dltime: now, ..heard });
            let quiet = now.slot_index() - st.dltime.slot_index();
            find_ctx(looked.contexts, st.contexts[i].key) matches Some(d) && d.state == (
            if quiet <= READY_TIMER_SLOTS {
                PdpState::Ready
            } else {
                PdpState::Standby
            })
        }),
{
    law_unitdata_reaches_gateway(st, ind, i, payload);
    lemma_heard_wf(st, after_uplink(st, ind), i, now);
    lemma_quiet(SndcpView { dltime: now, ..after_uplink(st, ind) }, i, st.dltime);
}

/// A context changed other than in key and address, and a later time.
proof fn lemma_heard_wf(st: SndcpView, t: SndcpView, i: int, now: TdmaTime)
    requires
        st.wf(),
        0 <= i < st.contexts.len(),
        only_context(st, t, i),
        same_identity(st.contexts[i], t.contexts[i]),
    ensures
        (SndcpView { dltime: now, ..t }).wf(),
{
    lemma_with_ctx_wf(st, i, t.contexts[i]);
    let w = st.with_ctx(i, t.contexts[i]);
    let f = SndcpView { dltime: now, ..t };
    assert(f.contexts =~= w.contexts);
    assert(f.pool == w.pool && f.by_ip == w.by_ip && f.config == w.config);
    reveal(SndcpView::wf);
}

/// A ready context whose deadline was set at `since`.
proof fn lemma_quiet(st: SndcpView, i: int, since: TdmaTime)
    requires
        st.wf(),
        0 <= i < st.contexts.len(),
        st.contexts[i].state == PdpState::Ready,
        st.contexts[i].ready_deadline == due(since, READY_TIMER_SLOTS),
        0 <= since.slot_index(),
        since.slot_index() + READY_TIMER_SLOTS < crate::tdma::SLOTS_PER_CYCLE,
    ensures
        find_ctx(after_timers(st).contexts, st.contexts[i].key) matches Some(d) && d.state == (
        if st.dltime.slot_index() - since.slot_index() <= READY_TIMER_SLOTS {
            PdpState::Ready
        } else {
            PdpState::Standby
        }),
{
    lemma_slot_index_time_at(since.slot_index() + READY_TIMER_SLOTS);
    law_timers(st, i);
}

/// Every uplink indication is served, wherever it comes from, and no other message is.
pub proof fn law_only_uplink_is_served(st: SndcpView, m: SapMsgView)
    ensures
        m.msg matches SapInnerView::LtpdMleUnitdataInd(ind) ==> after_message(st, m)
            == after_uplink(st, ind) && message_msgs(st, m) == uplink_msgs(st, ind),
        !(m.msg is LtpdMleUnitdataInd) ==> after_message(st, m) == st && message_msgs(st, m).len()
            == 0,
{
}

/// An SN-PDU that is damaged or has no meaning for the network is left alone.
pub proof fn law_other_pdus_are_left_alone(st: SndcpView, ind: LtpdIndView)
    requires
        ind.pdu is Other || ind.pdu is Malformed,
    ensures
        after_uplink(st, ind) == st,
        uplink_msgs(st, ind).len() == 0,
{
}

/// A timeslot lasts 170/12 milliseconds. So counted, a context stays ready for a minute without
/// traffic and in standby for ten minutes, and an answer is waited for ten seconds, each rounded
/// up by less than 25 milliseconds.
pub proof fn law_timer_lengths()
    ensures
        60_000 * 12 <= READY_TIMER_SLOTS * 170 < 60_025 * 12,
        600_000 * 12 <= STANDBY_TIMER_SLOTS * 170 < 600_025 * 12,
        10_000 * 12 <= RESP_WAIT_TIMER_SLOTS * 170 < 10_025 * 12,
{
}

} // verus!
