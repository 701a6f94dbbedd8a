//! The basic link: stop-and-wait transfer with single-bit sequence numbers.

use crate::bits::{BitBuffer, BitsView};
use crate::fcs::{check_fcs, fcs_valid};
use crate::llc::al_tick::{id_after, next_id};
use crate::llc::entity::{
    expected_views, expected_wf, outbound_wf, send_seq_wf, ExpectedInAck, ExpectedView, Llc,
    LlcView, ScheduledOutAck,
};
use crate::llc::pdus::{RxPdu, RxPduView};
use crate::saps::{
    make_tma_req, make_to_mle, tma_req_msg, to_mle_msg, ChanAllocType, CmceChanAllocReq,
    Layer2Service, LlcPdu, LlcPduView, MessageQueue, ReporterId, SapInnerView, SapMsg, SapMsgInner,
    SapMsgView, SsiType, TetraAddress, TimeslotSet, TlaIndBl, TlaIndBlView, TlaReqBl, TlaReqBlView,
    TmaIndView, TmaReqView, TmaUnitdataInd, TmaUnitdataReq, TxParams, TxReporter, TxState,
    UlDlAssignment,
};
use crate::tdma::{elapsed, elapsed_spec, time_at, TdmaTime};
use vstd::prelude::*;

verus! {

broadcast use vstd::std_specs::hash::group_hash_axioms;

// ---- acknowledgements to send --------------------------------------------------

/// `i` is the oldest acknowledgement owed to a subscriber on a carrier.
pub open spec fn is_first_ack(s: Seq<ScheduledOutAck>, ssi: u32, carrier: u16, i: int) -> bool {
    &&& 0 <= i < s.len()
    &&& s[i].addr.ssi == ssi && s[i].carrier_num == carrier
    &&& forall|j: int|
        0 <= j < i ==> (#[trigger] s[j]).addr.ssi != ssi || s[j].carrier_num != carrier
}

/// The oldest acknowledgement owed to a subscriber on a carrier, if there is one.
pub open spec fn first_ack(s: Seq<ScheduledOutAck>, ssi: u32, carrier: u16) -> Option<int> {
    if exists|i: int| is_first_ack(s, ssi, carrier, i) {
        Some(choose|i: int| is_first_ack(s, ssi, carrier, i))
    } else {
        None
    }
}

proof fn lemma_first_ack(s: Seq<ScheduledOutAck>, ssi: u32, carrier: u16, i: int)
    requires
        is_first_ack(s, ssi, carrier, i),
    ensures
        first_ack(s, ssi, carrier) == Some(i),
{
    let c = choose|j: int| is_first_ack(s, ssi, carrier, j);
    assert(is_first_ack(s, ssi, carrier, c));
    if c < i {
        assert(s[c].addr.ssi != ssi || s[c].carrier_num != carrier);
    }
    if i < c {
        assert(s[i].addr.ssi != ssi || s[i].carrier_num != carrier);
    }
}

/// The acknowledgements without the oldest one to a subscriber on a carrier.
pub open spec fn acks_after(s: Seq<ScheduledOutAck>, ssi: u32, carrier: u16) -> Seq<ScheduledOutAck> {
    match first_ack(s, ssi, carrier) {
        Some(i) => s.remove(i),
        None => s,
    }
}

/// The BL-ACK for an acknowledgement. One for a message on a traffic channel
/// (timeslots 2 to 4) is sent there by stealing.
pub open spec fn ack_msg(a: ScheduledOutAck) -> SapMsgView {
    let steal = 2 <= a.ts <= 4;
    tma_req_msg(
        TmaReqView {
            carrier_num: a.carrier_num,
            pdu: LlcPduView::BlAck { has_fcs: false, nr: a.nr, body: Seq::empty() },
            main_address: a.addr,
            link_id: if steal {
                a.ts as u32
            } else {
                0
            },
            endpoint_id: 0,
            params: TxParams {
                stealing_permission: steal,
                chan_alloc: if steal {
                    Some(
                        CmceChanAllocReq {
                            usage: None,
                            timeslots: TimeslotSet::only_spec(a.ts),
                            alloc_type: ChanAllocType::Replace,
                            ul_dl_assigned: UlDlAssignment::Both,
                            carrier: Some(a.carrier_num),
                        },
                    )
                } else {
                    None
                },
                ..TxParams::signalling_spec()
            },
            tx_reporter: None,
        },
    )
}

/// The BL-ACKs for a list of acknowledgements, in order.
pub open spec fn ack_msgs(s: Seq<ScheduledOutAck>) -> Seq<SapMsgView> {
    Seq::new(s.len(), |i: int| ack_msg(s[i]))
}

// ---- acknowledged messages -------------------------------------------------------

/// `i` is the first message to a subscriber on a carrier that was handed down.
pub open spec fn is_in_flight(s: Seq<ExpectedView>, ssi: u32, carrier: u16, i: int) -> bool {
    &&& 0 <= i < s.len()
    &&& awaits_ack(s[i], ssi, carrier)
    &&& forall|j: int| 0 <= j < i ==> !awaits_ack(#[trigger] s[j], ssi, carrier)
}

/// The message was handed down to this subscriber on this carrier.
pub open spec fn awaits_ack(e: ExpectedView, ssi: u32, carrier: u16) -> bool {
    e.addr.ssi == ssi && e.carrier_num == carrier && e.t_submitted_to_umac is Some
}

/// The first message to a subscriber on a carrier that was handed down, if any.
pub open spec fn in_flight(s: Seq<ExpectedView>, ssi: u32, carrier: u16) -> Option<int> {
    if exists|i: int| is_in_flight(s, ssi, carrier, i) {
        Some(choose|i: int| is_in_flight(s, ssi, carrier, i))
    } else {
        None
    }
}

proof fn lemma_in_flight(s: Seq<ExpectedView>, ssi: u32, carrier: u16, i: int)
    requires
        is_in_flight(s, ssi, carrier, i),
    ensures
        in_flight(s, ssi, carrier) == Some(i),
{
    let c = choose|j: int| is_in_flight(s, ssi, carrier, j);
    assert(is_in_flight(s, ssi, carrier, c));
    if c < i {
        assert(!awaits_ack(s[c], ssi, carrier));
    }
    if i < c {
        assert(!awaits_ack(s[i], ssi, carrier));
    }
}

/// The LLC after an acknowledgement for `nr`. It confirms the message in flight when
/// the MAC has sent that one and the number is its own; else the message goes to the
/// head of the queue and waits on.
pub open spec fn after_incoming_ack(st: LlcView, ssi: u32, carrier: u16, nr: u8) -> LlcView {
    match in_flight(st.outbound, ssi, carrier) {
        None => st,
        Some(i) => {
            let e = st.outbound[i];
            if e.t_umac_done is Some && e.ns == nr {
                LlcView {
                    outbound: st.outbound.remove(i),
                    tx_outcomes: st.tx_outcomes.push(
                        TxReporter { state: TxState::Acknowledged, ..e.tx_reporter },
                    ),
                    ..st
                }
            } else {
                LlcView { outbound: seq![e] + st.outbound.remove(i), ..st }
            }
        },
    }
}

/// Taking a message out keeps the queue well formed.
proof fn lemma_remove_wf(s: Seq<ExpectedView>, i: int, n252: u8)
    requires
        outbound_wf(s, n252),
        0 <= i < s.len(),
    ensures
        outbound_wf(s.remove(i), n252),
{
    let r = s.remove(i);
    assert forall|a: int, b: int|
        0 <= a < b < r.len() && (#[trigger] r[a]).addr.ssi == (
        #[trigger] r[b]).addr.ssi implies r[b].t_submitted_to_umac is None by {
        let a0 = if a < i {
            a
        } else {
            a + 1
        };
        let b0 = if b < i {
            b
        } else {
            b + 1
        };
        assert(r[a] == s[a0] && r[b] == s[b0]);
    }
    assert forall|a: int| 0 <= a < r.len() implies expected_wf(#[trigger] r[a], n252) by {
        let a0 = if a < i {
            a
        } else {
            a + 1
        };
        assert(r[a] == s[a0]);
    }
}

/// Moving the message in flight to the head keeps the queue well formed.
proof fn lemma_to_front_wf(s: Seq<ExpectedView>, i: int, n252: u8)
    requires
        outbound_wf(s, n252),
        0 <= i < s.len(),
        s[i].t_submitted_to_umac is Some,
    ensures
        outbound_wf(seq![s[i]] + s.remove(i), n252),
{
    lemma_remove_wf(s, i, n252);
    let rest = s.remove(i);
    let r = seq![s[i]] + rest;
    assert forall|a: int, b: int|
        0 <= a < b < r.len() && (#[trigger] r[a]).addr.ssi == (
        #[trigger] r[b]).addr.ssi implies r[b].t_submitted_to_umac is None by {
        if a == 0 {
            let b0 = if b - 1 < i {
                b - 1
            } else {
                b
            };
            assert(r[b] == s[b0]);
            if b0 < i {
                assert(s[b0].addr.ssi == s[i].addr.ssi);
            }
        } else {
            assert(r[a] == rest[a - 1] && r[b] == rest[b - 1]);
        }
    }
    assert forall|a: int| 0 <= a < r.len() implies expected_wf(#[trigger] r[a], n252) by {
        if a > 0 {
            assert(r[a] == rest[a - 1]);
        }
    }
}

/// The message handed to the MAC at `at`.
pub open spec fn submitted(e: ExpectedView, at: TdmaTime) -> ExpectedView {
    ExpectedView {
        t_submitted_to_umac: Some(at),
        t_umac_done: None,
        tx_reporter: TxReporter { state: TxState::Pending, ..e.tx_reporter },
        ..e
    }
}

/// The message after a look at its reporter.
pub open spec fn seen(e: ExpectedView, now: TdmaTime) -> ExpectedView {
    if e.t_umac_done is None && (e.tx_reporter.state == TxState::Transmitted || e.tx_reporter.state
        == TxState::Discarded) {
        ExpectedView { t_umac_done: Some(now), ..e }
    } else {
        e
    }
}

/// The message was sent or dropped so long ago that its wait is over.
pub open spec fn wait_over(e: ExpectedView, now: TdmaTime, t251: u32) -> bool {
    e.t_umac_done matches Some(t) && elapsed_spec(now, t, t251)
}

/// What a look for retransmissions makes of the first messages of the queue.
#[verifier::ext_equal]
pub struct RetxPass {
    pub kept: Seq<ExpectedView>,
    pub msgs: Seq<SapMsgView>,
    pub outcomes: Seq<TxReporter>,
}

/// What a look for retransmissions decides on one message.
#[derive(Debug, Clone, Copy, PartialEq, Eq, Structural)]
pub enum Review {
    Keep,
    Resend,
    /// Given up after it was seen on the air.
    Lose,
    /// Given up after the MAC dropped it.
    Drop,
}

/// The decision on a message whose reporter has been looked at.
pub open spec fn review(e: ExpectedView, now: TdmaTime, t251: u32, n252: u8) -> Review {
    if !wait_over(e, now, t251) {
        Review::Keep
    } else if e.retransmit_count < n252 {
        Review::Resend
    } else if e.tx_reporter.state == TxState::Transmitted {
        Review::Lose
    } else {
        Review::Drop
    }
}

/// The message after it has been sent again.
pub open spec fn resent(e: ExpectedView, now: TdmaTime) -> ExpectedView {
    ExpectedView {
        retransmit_count: (e.retransmit_count + 1) as u8,
        ..submitted(e, now.forward_spec(e.t_first.t))
    }
}

impl ExpectedInAck {
    /// Looks at the reporter of the message and decides on it; one that is to be sent
    /// again is prepared for that.
    fn review(&mut self, now: TdmaTime, t251: u32, n252: u8) -> (r: Review)
        requires
            now.wf(),
            old(self)@.t_first.wf(),
        ensures
            r == review(seen(old(self)@, now), now, t251, n252),
            final(self)@ == (if r == Review::Resend {
                resent(seen(old(self)@, now), now)
            } else {
                seen(old(self)@, now)
            }),
    {
        if self.t_umac_done.is_none() && (self.tx_reporter.is_transmitted()
            || self.tx_reporter.is_discarded()) {
            self.t_umac_done = Some(now);
        }
        let over: bool = match self.t_umac_done {
            Some(t) => elapsed(now, t, t251),
            None => false,
        };
        if !over {
            Review::Keep
        } else if self.retransmit_count < n252 {
            self.retransmit_count = self.retransmit_count + 1;
            self.t_submitted_to_umac = Some(now.forward_to_timeslot(self.t_first.t));
            self.t_umac_done = None;
            self.tx_reporter = TxReporter::new(self.tx_reporter.id);
            Review::Resend
        } else if self.tx_reporter.is_transmitted() {
            Review::Lose
        } else {
            Review::Drop
        }
    }
}

/// A look over the first `n` messages. One whose wait is over is sent again while
/// retransmissions are left; after that it is dropped, and lost if it was last seen
/// on the air.
pub open spec fn retx_pass(st: LlcView, n: nat) -> RetxPass
    decreases n,
{
    if n == 0 {
        RetxPass { kept: Seq::empty(), msgs: Seq::empty(), outcomes: Seq::empty() }
    } else {
        let before = retx_pass(st, (n - 1) as nat);
        let limits = st.config.limits;
        let e = seen(st.outbound[n - 1], st.dltime);
        match review(e, st.dltime, limits.t251_sender_retry, limits.n252_bl_max_retransmits) {
            Review::Keep => RetxPass { kept: before.kept.push(e), ..before },
            Review::Resend => RetxPass {
                kept: before.kept.push(resent(e, st.dltime)),
                msgs: before.msgs.push(tma_req_msg(e.retransmission_buf)),
                ..before
            },
            Review::Lose => RetxPass {
                outcomes: before.outcomes.push(
                    TxReporter { state: TxState::Lost, ..e.tx_reporter },
                ),
                ..before
            },
            Review::Drop => before,
        }
    }
}

/// The look keeps the queue well formed and adds no subscriber to it.
proof fn lemma_retx_pass_wf(st: LlcView, n: nat)
    requires
        st.wf(),
        n <= st.outbound.len(),
    ensures
        outbound_wf(retx_pass(st, n).kept, st.config.limits.n252_bl_max_retransmits),
        retx_pass(st, n).kept.len() <= n,
        forall|k: int|
            0 <= k < retx_pass(st, n).kept.len() ==> exists|i: int|
                0 <= i < n && (#[trigger] st.outbound[i]).addr.ssi == (
                #[trigger] retx_pass(st, n).kept[k]).addr.ssi,
    decreases n,
{
    if n > 0 {
        let before = retx_pass(st, (n - 1) as nat).kept;
        lemma_retx_pass_wf(st, (n - 1) as nat);
        let after = retx_pass(st, n).kept;
        let orig = st.outbound[n - 1];
        assert(expected_wf(orig, st.config.limits.n252_bl_max_retransmits));
        assert forall|k: int| 0 <= k < after.len() implies exists|i: int|
            0 <= i < n && (#[trigger] st.outbound[i]).addr.ssi == (
            #[trigger] after[k]).addr.ssi by {
            if k < before.len() {
                assert(after[k] == before[k]);
                let i = choose|i: int|
                    0 <= i < n - 1 && (#[trigger] st.outbound[i]).addr.ssi == before[k].addr.ssi;
                assert(st.outbound[i].addr.ssi == after[k].addr.ssi);
            } else {
                assert(st.outbound[n - 1].addr.ssi == after[k].addr.ssi);
            }
        }
        assert forall|a: int, b: int|
            0 <= a < b < after.len() && (#[trigger] after[a]).addr.ssi == (
            #[trigger] after[b]).addr.ssi implies after[b].t_submitted_to_umac is None by {
            assert(after[a] == before[a]);
            if b < before.len() {
                assert(after[b] == before[b]);
            } else {
                let i = choose|i: int|
                    0 <= i < n - 1 && (#[trigger] st.outbound[i]).addr.ssi == before[a].addr.ssi;
                assert(st.outbound[i].addr.ssi == st.outbound[n - 1].addr.ssi);
            }
        }
        assert forall|a: int| 0 <= a < after.len() implies expected_wf(
            #[trigger] after[a],
            st.config.limits.n252_bl_max_retransmits,
        ) by {
            if a < before.len() {
                assert(after[a] == before[a]);
            }
        }
    }
}

/// Message `i` may be handed down: it never was, and no older message goes to the
/// same subscriber.
pub open spec fn is_free(s: Seq<ExpectedView>, i: int) -> bool {
    &&& s[i].t_submitted_to_umac is None
    &&& forall|j: int| 0 <= j < i ==> (#[trigger] s[j]).addr.ssi != s[i].addr.ssi
}

/// The queue after its free messages have been handed down.
pub open spec fn after_submission(s: Seq<ExpectedView>, now: TdmaTime) -> Seq<ExpectedView> {
    Seq::new(
        s.len(),
        |i: int|
            if is_free(s, i) {
                submitted(s[i], now.forward_spec(s[i].t_first.t))
            } else {
                s[i]
            },
    )
}

/// What the free ones of the first `n` messages hand to the MAC.
pub open spec fn free_msgs(s: Seq<ExpectedView>, n: nat) -> Seq<SapMsgView>
    decreases n,
{
    if n == 0 {
        Seq::empty()
    } else if is_free(s, n - 1) {
        free_msgs(s, (n - 1) as nat).push(tma_req_msg(s[n - 1].retransmission_buf))
    } else {
        free_msgs(s, (n - 1) as nat)
    }
}

/// Handing the free messages down keeps the queue well formed.
proof fn lemma_after_submission_wf(s: Seq<ExpectedView>, now: TdmaTime, n252: u8)
    requires
        outbound_wf(s, n252),
    ensures
        outbound_wf(after_submission(s, now), n252),
{
    let r = after_submission(s, now);
    assert forall|a: int, b: int|
        0 <= a < b < r.len() && (#[trigger] r[a]).addr.ssi == (
        #[trigger] r[b]).addr.ssi implies r[b].t_submitted_to_umac is None by {
        assert(s[a].addr.ssi == s[b].addr.ssi);
        assert(!is_free(s, b));
    }
    assert forall|a: int| 0 <= a < r.len() implies expected_wf(#[trigger] r[a], n252) by {
        assert(expected_wf(s[a], n252));
    }
}

// ---- requests from above -----------------------------------------------------------

/// The carrier that a request goes out on.
pub open spec fn preferred_carrier(params: TxParams, main_carrier: u16) -> u16 {
    match params.chan_alloc {
        Some(ca) => match ca.carrier {
            Some(c) => c,
            None => main_carrier,
        },
        None => main_carrier,
    }
}

fn choose_carrier(params: &TxParams, main_carrier: u16) -> (r: u16)
    ensures
        r == preferred_carrier(*params, main_carrier),
{
    match params.chan_alloc {
        Some(ca) => match ca.carrier {
            Some(c) => c,
            None => main_carrier,
        },
        None => main_carrier,
    }
}

/// The timeslot of a channel allocation, the first one by default.
pub open spec fn derived_ts(params: TxParams) -> u8 {
    match params.chan_alloc {
        Some(ca) => match ca.timeslots.first_spec() {
            Some(ts) => ts,
            None => 1,
        },
        None => 1,
    }
}

/// The reporter of a message that the requester follows under `id`.
pub open spec fn requester_reporter(id: Option<u64>) -> Option<TxReporter> {
    match id {
        Some(i) => Some(TxReporter::pending(ReporterId::Requester(i))),
        None => None,
    }
}

/// The TL-SDU is too long for the basic link (N.251).
pub open spec fn too_long(p: TlaReqBlView, st: LlcView) -> bool {
    p.tl_sdu.len() > st.config.limits.n251_bl_max_tlsdu_len_bits
}

/// The LLC after a TL-UNITDATA request: a BL-UDATA waits to be sent, unless the TL-SDU
/// is too long.
pub open spec fn after_tlunitdata_req(st: LlcView, p: TlaReqBlView) -> LlcView {
    if too_long(p, st) {
        st
    } else {
        LlcView {
            udata: st.udata.push(
                tma_req_msg(
                    TmaReqView {
                        carrier_num: preferred_carrier(p.params, st.config.main_carrier),
                        pdu: LlcPduView::BlUdata { has_fcs: p.fcs_flag, body: p.tl_sdu },
                        main_address: p.main_address,
                        link_id: p.link_id,
                        endpoint_id: p.endpoint_id,
                        params: TxParams { stealing_repeats_flag: None, ..p.params },
                        tx_reporter: requester_reporter(p.tx_reporter),
                    },
                ),
            ),
            ..st
        }
    }
}

/// The request to the MAC for a TL-DATA request sent as `pdu`.
pub open spec fn tldata_req(
    st: LlcView,
    p: TlaReqBlView,
    pdu: LlcPduView,
    link_id: u32,
    reporter: Option<TxReporter>,
) -> TmaReqView {
    TmaReqView {
        carrier_num: preferred_carrier(p.params, st.config.main_carrier),
        pdu,
        main_address: p.main_address,
        link_id,
        endpoint_id: p.endpoint_id,
        params: TxParams { packet_data_flag: false, ..p.params },
        tx_reporter: reporter,
    }
}

/// N(S) of the next message to a subscriber.
pub open spec fn next_ns(m: Map<u32, u8>, ssi: u32) -> u8 {
    if m.contains_key(ssi) {
        m[ssi]
    } else {
        0
    }
}

/// The LLC after a TL-DATA request.
/// - A TL-SDU that is too long is dropped.
/// - On a stolen channel an acknowledgement that is owed carries the TL-SDU.
/// - Without one, and to a group, the TL-SDU goes out as BL-UDATA.
/// - Else it is queued as BL-DATA, or as BL-ADATA with an acknowledgement that is owed,
///   under the next N(S) of the subscriber.
pub open spec fn after_tldata_req(st: LlcView, p: TlaReqBlView) -> LlcView {
    let carrier = preferred_carrier(p.params, st.config.main_carrier);
    let ssi = p.main_address.ssi;
    let owed = first_ack(st.out_acks, ssi, carrier);
    if too_long(p, st) {
        st
    } else if p.params.stealing_permission && owed is Some {
        LlcView {
            out_acks: acks_after(st.out_acks, ssi, carrier),
            udata: st.udata.push(
                tma_req_msg(
                    tldata_req(
                        st,
                        p,
                        LlcPduView::BlAck {
                            has_fcs: p.fcs_flag,
                            nr: st.out_acks[owed->0].nr,
                            body: p.tl_sdu,
                        },
                        p.link_id,
                        requester_reporter(p.tx_reporter),
                    ),
                ),
            ),
            ..st
        }
    } else if p.params.stealing_permission || p.main_address.ssi_type == SsiType::Gssi {
        LlcView {
            udata: st.udata.push(
                tma_req_msg(
                    tldata_req(
                        st,
                        p,
                        LlcPduView::BlUdata { has_fcs: p.fcs_flag, body: p.tl_sdu },
                        0,
                        requester_reporter(p.tx_reporter),
                    ),
                ),
            ),
            ..st
        }
    } else {
        let ns = next_ns(st.send_seq, ssi);
        let reporter = match p.tx_reporter {
            Some(i) => TxReporter::pending(ReporterId::Requester(i)),
            None => TxReporter::pending(ReporterId::Llc(st.next_id)),
        };
        let pdu = match owed {
            Some(i) => LlcPduView::BlAdata {
                has_fcs: p.fcs_flag,
                nr: st.out_acks[i].nr,
                ns,
                body: p.tl_sdu,
            },
            None => LlcPduView::BlData { has_fcs: p.fcs_flag, ns, body: p.tl_sdu },
        };
        LlcView {
            out_acks: acks_after(st.out_acks, ssi, carrier),
            send_seq: st.send_seq.insert(ssi, (1 - ns) as u8),
            outbound: st.outbound.push(
                ExpectedView {
                    carrier_num: carrier,
                    ts: derived_ts(p.params),
                    addr: p.main_address,
                    ns,
                    bl_type: Layer2Service::Acknowledged,
                    t_first: st.dltime,
                    t_submitted_to_umac: None,
                    t_umac_done: None,
                    tx_reporter: reporter,
                    retransmission_buf: tldata_req(st, p, pdu, 0, Some(reporter)),
                    retransmit_count: 0,
                },
            ),
            next_id: if p.tx_reporter is None {
                id_after(st.next_id)
            } else {
                st.next_id
            },
            ..st
        }
    }
}

// ---- indications from below ----------------------------------------------------------

/// Header fields of a received basic-link PDU.
pub struct BlHeader {
    pub has_fcs: bool,
    pub ns: Option<u8>,
    pub nr: Option<u8>,
}

/// Header fields of a basic-link PDU; `None` for any other.
pub open spec fn bl_header(pdu: RxPduView) -> Option<BlHeader> {
    match pdu {
        RxPduView::BlAdata { has_fcs, nr, ns, body } => Some(
            BlHeader { has_fcs, ns: Some(ns), nr: Some(nr) },
        ),
        RxPduView::BlData { has_fcs, ns, body } => Some(
            BlHeader { has_fcs, ns: Some(ns), nr: None },
        ),
        RxPduView::BlAck { has_fcs, nr, body } => Some(
            BlHeader { has_fcs, ns: None, nr: Some(nr) },
        ),
        RxPduView::BlUdata { has_fcs, body } => Some(BlHeader { has_fcs, ns: None, nr: None }),
        _ => None,
    }
}

/// The bits behind the header of a basic-link PDU.
pub open spec fn bl_body(pdu: RxPduView) -> BitsView {
    match pdu {
        RxPduView::BlAdata { has_fcs, nr, ns, body } => body,
        RxPduView::BlData { has_fcs, ns, body } => body,
        RxPduView::BlAck { has_fcs, nr, body } => body,
        RxPduView::BlUdata { has_fcs, body } => body,
        _ => BitsView { bits: Seq::empty(), pos: 0 },
    }
}

/// The PDU is a basic-link one and its check sequence, if it has one, holds.
pub open spec fn bl_accepted(pdu: RxPduView) -> bool {
    &&& bl_header(pdu) is Some
    &&& bl_header(pdu)->0.has_fcs ==> fcs_valid(bl_body(pdu).remaining())
}

/// The acknowledgement owed for a received message. The uplink is two timeslots
/// behind the downlink.
pub open spec fn owed_ack(st: LlcView, ind: TmaIndView, ns: u8) -> ScheduledOutAck {
    let t = time_at(st.dltime.slot_index() - 2);
    ScheduledOutAck {
        addr: ind.main_address,
        t_start: t,
        nr: ns,
        carrier_num: ind.carrier_num,
        ts: t.t,
    }
}

/// The LLC after a basic-link PDU: a numbered message is owed an acknowledgement, and
/// an acknowledgement that it carries is taken in.
pub open spec fn after_bl_pdu(st: LlcView, ind: TmaIndView, pdu: RxPduView) -> LlcView {
    if !bl_accepted(pdu) {
        st
    } else {
        let h = bl_header(pdu)->0;
        let st1 = match h.ns {
            Some(ns) => LlcView { out_acks: st.out_acks.push(owed_ack(st, ind, ns)), ..st },
            None => st,
        };
        match h.nr {
            Some(nr) => after_incoming_ack(st1, ind.main_address.ssi, ind.carrier_num, nr),
            None => st1,
        }
    }
}

/// The indication for a TL-SDU received on the basic link.
pub open spec fn bl_ind(ind: TmaIndView, link_id: u32, sdu: Option<Seq<bool>>, fcs: bool) -> TlaIndBlView {
    TlaIndBlView {
        main_address: ind.main_address,
        link_id,
        endpoint_id: ind.endpoint_id,
        channel: ind.channel,
        tl_sdu: sdu,
        fcs_flag: fcs,
    }
}

/// What a basic-link PDU delivers to the layer above. A BL-ACK delivers only if it
/// carries a TL-SDU.
pub open spec fn bl_deliveries(ind: TmaIndView, pdu: RxPduView) -> Seq<SapMsgView> {
    if !bl_accepted(pdu) {
        Seq::empty()
    } else {
        let fcs = bl_header(pdu)->0.has_fcs;
        let rest = bl_body(pdu).remaining();
        let sdu = if rest.len() > 0 {
            Some(rest)
        } else {
            None
        };
        match pdu {
            RxPduView::BlAck { has_fcs, nr, body } => if rest.len() == 0 {
                Seq::empty()
            } else {
                seq![to_mle_msg(SapInnerView::TlaTlDataIndBl(bl_ind(ind, 0, sdu, fcs)))]
            },
            RxPduView::BlUdata { has_fcs, body } => seq![
                to_mle_msg(SapInnerView::TlaTlUnitdataIndBl(bl_ind(ind, 0, sdu, fcs))),
            ],
            _ => seq![
                to_mle_msg(SapInnerView::TlaTlDataIndBl(bl_ind(ind, ind.link_id, sdu, fcs))),
            ],
        }
    }
}

/// Pushing a new message keeps the queue well formed.
proof fn lemma_push_wf(s: Seq<ExpectedView>, e: ExpectedView, n252: u8)
    requires
        outbound_wf(s, n252),
        expected_wf(e, n252),
        e.t_submitted_to_umac is None,
    ensures
        outbound_wf(s.push(e), n252),
{
    let r = s.push(e);
    assert forall|a: int, b: int|
        0 <= a < b < r.len() && (#[trigger] r[a]).addr.ssi == (
        #[trigger] r[b]).addr.ssi implies r[b].t_submitted_to_umac is None by {
        if b < s.len() {
            assert(r[a] == s[a] && r[b] == s[b]);
        }
    }
}

impl Llc {
    /// Notes an acknowledgement to be sent.
    pub fn schedule_outgoing_ack(
        &mut self,
        dltime: TdmaTime,
        addr: TetraAddress,
        carrier_num: u16,
        ts: u8,
        ns: u8,
    )
        ensures
            final(self)@ == (LlcView {
                out_acks: old(self)@.out_acks.push(
                    ScheduledOutAck { addr, t_start: dltime, nr: ns, carrier_num, ts },
                ),
                ..old(self)@
            }),
    {
        self.scheduled_out_acks.push(
            ScheduledOutAck { addr, t_start: dltime, nr: ns, carrier_num, ts },
        );
    }

    /// Takes the oldest acknowledgement owed to a subscriber on a carrier and returns
    /// its N(R).
    pub fn get_out_ack_seq_if_any(&mut self, addr: TetraAddress, carrier_num: u16) -> (r: Option<
        u8,
    >)
        ensures
            final(self)@ == (LlcView {
                out_acks: acks_after(old(self)@.out_acks, addr.ssi, carrier_num),
                ..old(self)@
            }),
            match first_ack(old(self)@.out_acks, addr.ssi, carrier_num) {
                Some(i) => r == Some(old(self)@.out_acks[i].nr),
                None => r is None,
            },
    {
        let ghost s = self.scheduled_out_acks@;
        let mut i: usize = 0;
        while i < self.scheduled_out_acks.len()
            invariant
                i <= self.scheduled_out_acks@.len(),
                self@ == old(self)@,
                s == self.scheduled_out_acks@,
                forall|j: int|
                    0 <= j < i ==> (#[trigger] s[j]).addr.ssi != addr.ssi || s[j].carrier_num
                        != carrier_num,
            decreases self.scheduled_out_acks@.len() - i,
        {
            let a: ScheduledOutAck = self.scheduled_out_acks[i];
            if a.addr.ssi == addr.ssi && a.carrier_num == carrier_num {
                proof {
                    lemma_first_ack(s, addr.ssi, carrier_num, i as int);
                }
                self.scheduled_out_acks.remove(i);
                return Some(a.nr);
            }
            i = i + 1;
        }
        None
    }

    /// The N(S) for the next message to a subscriber; the one after it differs.
    pub fn get_next_send_seq(&mut self, addr: &TetraAddress) -> (r: u8)
        requires
            send_seq_wf(old(self)@.send_seq),
        ensures
            r == next_ns(old(self)@.send_seq, addr.ssi),
            r <= 1,
            final(self)@ == (LlcView {
                send_seq: old(self)@.send_seq.insert(addr.ssi, (1 - r) as u8),
                ..old(self)@
            }),
            send_seq_wf(final(self)@.send_seq),
            next_ns(final(self)@.send_seq, addr.ssi) != r,
    {
        let ns: u8 = match self.link_send_seq.get(&addr.ssi) {
            Some(v) => *v,
            None => 0,
        };
        self.link_send_seq.insert(addr.ssi, 1 - ns);
        ns
    }

    /// Takes the first message to a subscriber on a carrier that was handed down.
    pub fn take_expected_ack_for_ssi(&mut self, ssi: u32, carrier_num: u16) -> (r: Option<
        ExpectedInAck,
    >)
        ensures
            match in_flight(old(self)@.outbound, ssi, carrier_num) {
                Some(i) => r is Some && r->0@ == old(self)@.outbound[i] && is_in_flight(
                    old(self)@.outbound,
                    ssi,
                    carrier_num,
                    i,
                ) && final(self)@ == (LlcView {
                    outbound: old(self)@.outbound.remove(i),
                    ..old(self)@
                }),
                None => r is None && final(self)@ == old(self)@,
            },
    {
        let ghost s = self@.outbound;
        let mut i: usize = 0;
        while i < self.outbound_messages.len()
            invariant
                i <= self.outbound_messages@.len(),
                self@ == old(self)@,
                s == expected_views(self.outbound_messages@),
                forall|j: int| 0 <= j < i ==> !awaits_ack(#[trigger] s[j], ssi, carrier_num),
            decreases self.outbound_messages@.len() - i,
        {
            let e: &ExpectedInAck = &self.outbound_messages[i];
            assert(s[i as int] == e@);
            if e.addr.ssi == ssi && e.carrier_num == carrier_num && e.t_submitted_to_umac.is_some() {
                proof {
                    lemma_in_flight(s, ssi, carrier_num, i as int);
                }
                let taken: ExpectedInAck = self.outbound_messages.remove(i);
                assert(self@ =~= (LlcView { outbound: s.remove(i as int), ..old(self)@ }));
                return Some(taken);
            }
            i = i + 1;
        }
        None
    }

    /// Takes in an acknowledgement; see [`after_incoming_ack`].
    pub fn process_incoming_ack(&mut self, addr: TetraAddress, carrier_num: u16, nr: u8)
        requires
            old(self)@.wf(),
        ensures
            final(self)@ == after_incoming_ack(old(self)@, addr.ssi, carrier_num, nr),
            final(self)@.wf(),
    {
        let ghost st = self@;
        let e: ExpectedInAck = match self.take_expected_ack_for_ssi(addr.ssi, carrier_num) {
            Some(e) => e,
            None => {
                return;
            },
        };
        let ghost i = in_flight(st.outbound, addr.ssi, carrier_num)->0;
        let ghost n252 = st.config.limits.n252_bl_max_retransmits;
        proof {
            lemma_remove_wf(st.outbound, i, n252);
            lemma_to_front_wf(st.outbound, i, n252);
        }
        if e.t_umac_done.is_some() && e.ns == nr {
            self.tx_outcomes.push(TxReporter { id: e.tx_reporter.id, state: TxState::Acknowledged });
            assert(self@ =~= after_incoming_ack(st, addr.ssi, carrier_num, nr));
        } else {
            let ghost rest = self.outbound_messages@;
            self.outbound_messages.insert(0, e);
            assert(self@.outbound =~= seq![e@] + expected_views(rest));
            assert(self@ =~= after_incoming_ack(st, addr.ssi, carrier_num, nr));
        }
    }

    /// Serves a TL-UNITDATA request; see [`after_tlunitdata_req`].
    pub fn rx_tla_tlunitdata_req_bl(&mut self, prim: TlaReqBl)
        requires
            old(self)@.wf(),
        ensures
            final(self)@ == after_tlunitdata_req(old(self)@, prim@),
            final(self)@.wf(),
    {
        if prim.tl_sdu.len() > self.config.limits.n251_bl_max_tlsdu_len_bits as usize {
            return;
        }
        let carrier_num: u16 = choose_carrier(&prim.params, self.config.main_carrier);
        let reporter: Option<TxReporter> = match prim.tx_reporter {
            Some(id) => Some(TxReporter::new(ReporterId::Requester(id))),
            None => None,
        };
        let msg: SapMsg = make_tma_req(
            TmaUnitdataReq {
                carrier_num,
                pdu: LlcPdu::BlUdata { has_fcs: prim.fcs_flag, body: prim.tl_sdu },
                main_address: prim.main_address,
                link_id: prim.link_id,
                endpoint_id: prim.endpoint_id,
                params: TxParams { stealing_repeats_flag: None, ..prim.params },
                tx_reporter: reporter,
            },
        );
        self.push_udata(msg);
    }

    /// Queues a message that needs no confirmation.
    fn push_udata(&mut self, msg: SapMsg)
        ensures
            final(self)@ == (LlcView { udata: old(self)@.udata.push(msg@), ..old(self)@ }),
    {
        self.outbound_udata_messages.push(msg);
        assert(self@ =~= (LlcView { udata: old(self)@.udata.push(msg@), ..old(self)@ }));
    }

    /// Serves a TL-DATA request; see [`after_tldata_req`].
    pub fn rx_tla_tldata_req_bl(&mut self, prim: TlaReqBl)
        requires
            old(self)@.wf(),
        ensures
            final(self)@ == after_tldata_req(old(self)@, prim@),
            final(self)@.wf(),
    {
        let ghost st = self@;
        let ghost p = prim@;
        if prim.tl_sdu.len() > self.config.limits.n251_bl_max_tlsdu_len_bits as usize {
            return;
        }
        let carrier_num: u16 = choose_carrier(&prim.params, self.config.main_carrier);
        let params = TxParams { packet_data_flag: false, ..prim.params };
        let reporter: Option<TxReporter> = match prim.tx_reporter {
            Some(id) => Some(TxReporter::new(ReporterId::Requester(id))),
            None => None,
        };
        let mut owed: Option<u8> = None;
        if prim.params.stealing_permission {
            owed = self.get_out_ack_seq_if_any(prim.main_address, carrier_num);
            if let Some(nr) = owed {
                let msg: SapMsg = make_tma_req(
                    TmaUnitdataReq {
                        carrier_num,
                        pdu: LlcPdu::BlAck { has_fcs: prim.fcs_flag, nr, body: prim.tl_sdu },
                        main_address: prim.main_address,
                        link_id: prim.link_id,
                        endpoint_id: prim.endpoint_id,
                        params,
                        tx_reporter: reporter,
                    },
                );
                self.push_udata(msg);
                return;
            }
        }
        if prim.params.stealing_permission || prim.main_address.ssi_type == SsiType::Gssi {
            let msg: SapMsg = make_tma_req(
                TmaUnitdataReq {
                    carrier_num,
                    pdu: LlcPdu::BlUdata { has_fcs: prim.fcs_flag, body: prim.tl_sdu },
                    main_address: prim.main_address,
                    link_id: 0,
                    endpoint_id: prim.endpoint_id,
                    params,
                    tx_reporter: reporter,
                },
            );
            self.push_udata(msg);
            return;
        }
        owed = self.get_out_ack_seq_if_any(prim.main_address, carrier_num);
        let ns: u8 = self.get_next_send_seq(&prim.main_address);
        let pdu: LlcPdu = match owed {
            Some(nr) => LlcPdu::BlAdata { has_fcs: prim.fcs_flag, nr, ns, body: prim.tl_sdu },
            None => LlcPdu::BlData { has_fcs: prim.fcs_flag, ns, body: prim.tl_sdu },
        };
        let ts: u8 = match prim.params.chan_alloc {
            Some(ca) => match ca.timeslots.first() {
                Some(ts) => ts,
                None => 1,
            },
            None => 1,
        };
        let tracked_by: TxReporter = match reporter {
            Some(r) => r,
            None => {
                let id: u64 = self.next_reporter_id;
                self.next_reporter_id = next_id(id);
                TxReporter::new(ReporterId::Llc(id))
            },
        };
        let buf = TmaUnitdataReq {
            carrier_num,
            pdu,
            main_address: prim.main_address,
            link_id: 0,
            endpoint_id: prim.endpoint_id,
            params,
            tx_reporter: Some(tracked_by),
        };
        let e = ExpectedInAck {
            carrier_num,
            ts,
            addr: prim.main_address,
            ns,
            bl_type: Layer2Service::Acknowledged,
            t_first: self.dltime,
            t_submitted_to_umac: None,
            t_umac_done: None,
            tx_reporter: tracked_by,
            retransmission_buf: buf,
            retransmit_count: 0,
        };
        proof {
            lemma_push_wf(st.outbound, e@, st.config.limits.n252_bl_max_retransmits);
        }
        self.push_outbound(e);
        assert(self@ =~= after_tldata_req(st, p));
    }

    /// Serves a basic-link PDU; see [`after_bl_pdu`] and [`bl_deliveries`]. Any other PDU
    /// is left alone.
    pub fn rx_tma_unitdata_ind_bl(
        &mut self,
        queue: &mut MessageQueue,
        ind: &TmaUnitdataInd,
        pdu: RxPdu,
    )
        requires
            old(self)@.wf(),
        ensures
            final(self)@ == after_bl_pdu(old(self)@, ind@, pdu@),
            final(self)@.wf(),
            final(queue)@ == old(queue)@ + bl_deliveries(ind@, pdu@),
    {
        let ghost st = self@;
        let ghost q = queue@;
        let ghost pv = pdu@;
        assert(q + Seq::<SapMsgView>::empty() =~= q);
        let is_ack: bool = matches!(pdu, RxPdu::BlAck { .. });
        let is_udata: bool = matches!(pdu, RxPdu::BlUdata { .. });
        let (has_fcs, ns, nr, body): (bool, Option<u8>, Option<u8>, BitBuffer) = match pdu {
            RxPdu::BlAdata { has_fcs, nr, ns, body } => (has_fcs, Some(ns), Some(nr), body),
            RxPdu::BlData { has_fcs, ns, body } => (has_fcs, Some(ns), None, body),
            RxPdu::BlAck { has_fcs, nr, body } => (has_fcs, None, Some(nr), body),
            RxPdu::BlUdata { has_fcs, body } => (has_fcs, None, None, body),
            _ => {
                return;
            },
        };
        if has_fcs && !check_fcs(&body) {
            return;
        }
        let msg_dltime: TdmaTime = self.dltime.add_timeslots(-2);
        if let Some(ns) = ns {
            self.schedule_outgoing_ack(
                msg_dltime,
                ind.main_address,
                ind.carrier_num,
                msg_dltime.t,
                ns,
            );
        }
        if let Some(nr) = nr {
            self.process_incoming_ack(ind.main_address, ind.carrier_num, nr);
        }
        let rest: usize = body.get_len_remaining();
        if is_ack && rest == 0 {
            return;
        }
        let tl_sdu: Option<Vec<bool>> = if rest > 0 {
            Some(body.take_remaining())
        } else {
            None
        };
        let link_id: u32 = if is_ack || is_udata {
            0
        } else {
            ind.link_id
        };
        let m = TlaIndBl {
            main_address: ind.main_address,
            link_id,
            endpoint_id: ind.endpoint_id,
            channel: ind.channel,
            tl_sdu,
            fcs_flag: has_fcs,
        };
        let msg: SapMsg = if is_udata {
            make_to_mle(SapMsgInner::TlaTlUnitdataIndBl(m))
        } else {
            make_to_mle(SapMsgInner::TlaTlDataIndBl(m))
        };
        queue.push_back(msg);
        assert(queue@ =~= q + bl_deliveries(ind@, pv));
    }

    /// Looks for messages whose wait is over; see [`retx_pass`]. Returns true when one
    /// was sent again.
    pub fn submit_retransmissions_to_umac(&mut self, queue: &mut MessageQueue) -> (r: bool)
        requires
            old(self)@.wf(),
        ensures
            final(self)@ == after_retransmissions(old(self)@),
            final(self)@.wf(),
            final(queue)@ == old(queue)@ + retransmission_msgs(old(self)@),
            r == (retransmission_msgs(old(self)@).len() > 0),
    {
        let ghost st = self@;
        let ghost q = queue@;
        let now: TdmaTime = self.dltime;
        let t251: u32 = self.config.limits.t251_sender_retry;
        let n252: u8 = self.config.limits.n252_bl_max_retransmits;
        let mut todo: Vec<ExpectedInAck> = Vec::new();
        std::mem::swap(&mut todo, &mut self.outbound_messages);
        let ghost total = todo@.len();
        let ghost mut n: nat = 0;
        let mut had_activity: bool = false;
        proof {
            assert(expected_views(self.outbound_messages@) =~= retx_pass(st, 0).kept);
            assert(self.tx_outcomes@ =~= st.tx_outcomes + retx_pass(st, 0).outcomes);
            assert(q + retx_pass(st, 0).msgs =~= q);
            assert(expected_views(todo@) =~= st.outbound.skip(0));
        }
        while todo.len() > 0
            invariant
                st.wf(),
                n <= total,
                total == st.outbound.len(),
                now == st.dltime,
                t251 == st.config.limits.t251_sender_retry,
                n252 == st.config.limits.n252_bl_max_retransmits,
                expected_views(todo@) == st.outbound.skip(n as int),
                self@ == (LlcView {
                    outbound: retx_pass(st, n).kept,
                    tx_outcomes: st.tx_outcomes + retx_pass(st, n).outcomes,
                    ..st
                }),
                queue@ == q + retx_pass(st, n).msgs,
                had_activity == (retx_pass(st, n).msgs.len() > 0),
            decreases todo@.len(),
        {
            let ghost views = expected_views(todo@);
            let ghost after = retx_pass(st, n + 1);
            proof {
                assert(views.len() == todo@.len());
                assert(views[0] == st.outbound.skip(n as int)[0]);
                assert(todo@[0]@ == st.outbound[n as int]);
                assert(expected_wf(st.outbound[n as int], n252));
            }
            let mut e: ExpectedInAck = todo.remove(0);
            assert(expected_views(todo@) =~= st.outbound.skip(n as int + 1)) by {
                assert(expected_views(todo@) =~= views.remove(0));
            }
            match e.review(now, t251, n252) {
                Review::Keep => {
                    self.push_outbound(e);
                },
                Review::Resend => {
                    queue.push_back(make_tma_req(e.retransmission_buf.duplicate()));
                    self.push_outbound(e);
                    had_activity = true;
                    assert(queue@ =~= q + after.msgs);
                },
                Review::Lose => {
                    self.tx_outcomes.push(TxReporter { id: e.tx_reporter.id, state: TxState::Lost });
                    assert(self@.tx_outcomes =~= st.tx_outcomes + after.outcomes);
                },
                Review::Drop => {},
            }
            proof {
                n = n + 1;
            }
            assert(self@ =~= (LlcView {
                outbound: retx_pass(st, n).kept,
                tx_outcomes: st.tx_outcomes + retx_pass(st, n).outcomes,
                ..st
            }));
        }
        proof {
            assert(expected_views(todo@).len() == 0);
            assert(n == total);
            lemma_retx_pass_wf(st, total);
        }
        had_activity
    }

    /// Hands down the messages that no older message holds back; see [`is_free`].
    /// Returns true when there was one.
    pub fn submit_free_messages_to_umac(&mut self, queue: &mut MessageQueue) -> (r: bool)
        requires
            old(self)@.wf(),
        ensures
            final(self)@ == (LlcView {
                outbound: after_submission(old(self)@.outbound, old(self)@.dltime),
                ..old(self)@
            }),
            final(self)@.wf(),
            final(queue)@ == old(queue)@ + free_msgs(
                old(self)@.outbound,
                old(self)@.outbound.len(),
            ),
            r == (free_msgs(old(self)@.outbound, old(self)@.outbound.len()).len() > 0),
    {
        let ghost st = self@;
        let ghost s = self@.outbound;
        let ghost done = after_submission(s, st.dltime);
        let ghost q = queue@;
        let now: TdmaTime = self.dltime;
        let n: usize = self.outbound_messages.len();
        let mut had_activity: bool = false;
        let mut i: usize = 0;
        assert(q + free_msgs(s, 0) =~= q);
        assert(s =~= done.take(0) + s.skip(0));
        while i < n
            invariant
                i <= n,
                n == s.len(),
                st.wf(),
                s == st.outbound,
                now == st.dltime,
                done == after_submission(s, now),
                self@ == (LlcView { outbound: done.take(i as int) + s.skip(i as int), ..st }),
                queue@ == q + free_msgs(s, i as nat),
                had_activity == (free_msgs(s, i as nat).len() > 0),
            decreases n - i,
        {
            let ghost views = self@.outbound;
            proof {
                assert(views == expected_views(self.outbound_messages@));
                assert(views.len() == n && self.outbound_messages@.len() == n);
                assert(views[i as int] == s[i as int]);
                assert(self.outbound_messages@[i as int]@ == s[i as int]);
                assert(expected_wf(s[i as int], st.config.limits.n252_bl_max_retransmits));
                assert forall|j: int| 0 <= j < i implies (#[trigger] views[j]).addr.ssi
                    == s[j].addr.ssi by {
                    assert(views[j] == done[j]);
                }
            }
            if self.outbound_messages[i].t_submitted_to_umac.is_none() && !self.is_held_back(i) {
                assert(is_free(s, i as int)) by {
                    assert forall|j: int| 0 <= j < i implies (#[trigger] s[j]).addr.ssi
                        != s[i as int].addr.ssi by {
                        assert(views[j].addr.ssi == s[j].addr.ssi);
                    }
                }
                self.submit_for_acknowledged_transmission(queue, i);
                had_activity = true;
                assert(queue@ =~= q + free_msgs(s, (i + 1) as nat));
            } else {
                assert(!is_free(s, i as int));
            }
            assert(self@.outbound =~= done.take(i + 1) + s.skip(i + 1));
            i = i + 1;
        }
        assert(self@.outbound =~= done);
        proof {
            lemma_after_submission_wf(s, now, st.config.limits.n252_bl_max_retransmits);
        }
        had_activity
    }

    /// True when an older message than number `i` goes to the same subscriber.
    fn is_held_back(&self, i: usize) -> (r: bool)
        requires
            i < self@.outbound.len(),
        ensures
            r == exists|j: int|
                0 <= j < i && (#[trigger] self@.outbound[j]).addr.ssi
                    == self@.outbound[i as int].addr.ssi,
    {
        let ghost s = self@.outbound;
        let ssi: u32 = self.outbound_messages[i].addr.ssi;
        let mut j: usize = 0;
        while j < i
            invariant
                j <= i < s.len(),
                s == self@.outbound,
                ssi == s[i as int].addr.ssi,
                forall|k: int| 0 <= k < j ==> (#[trigger] s[k]).addr.ssi != ssi,
            decreases i - j,
        {
            assert(s[j as int] == self.outbound_messages@[j as int]@);
            if self.outbound_messages[j].addr.ssi == ssi {
                return true;
            }
            j = j + 1;
        }
        false
    }

    /// Queues an acknowledged message.
    fn push_outbound(&mut self, e: ExpectedInAck)
        ensures
            final(self)@ == (LlcView { outbound: old(self)@.outbound.push(e@), ..old(self)@ }),
    {
        self.outbound_messages.push(e);
        assert(self@ =~= (LlcView { outbound: old(self)@.outbound.push(e@), ..old(self)@ }));
    }

    /// Hands message `i` to the MAC and starts its wait afresh.
    pub fn submit_for_acknowledged_transmission(&mut self, queue: &mut MessageQueue, i: usize)
        requires
            old(self)@.dltime.wf(),
            i < old(self)@.outbound.len(),
            old(self)@.outbound[i as int].t_first.wf(),
        ensures
            final(self)@ == (LlcView {
                outbound: old(self)@.outbound.update(
                    i as int,
                    submitted(
                        old(self)@.outbound[i as int],
                        old(self)@.dltime.forward_spec(old(self)@.outbound[i as int].t_first.t),
                    ),
                ),
                ..old(self)@
            }),
            final(queue)@ == old(queue)@.push(
                tma_req_msg(old(self)@.outbound[i as int].retransmission_buf),
            ),
    {
        let ghost st = self@;
        let now: TdmaTime = self.dltime;
        assert(self.outbound_messages@[i as int]@ == st.outbound[i as int]);
        let e: &mut ExpectedInAck = &mut self.outbound_messages[i];
        let msg: SapMsg = make_tma_req(e.retransmission_buf.duplicate());
        let at: TdmaTime = now.forward_to_timeslot(e.t_first.t);
        e.t_submitted_to_umac = Some(at);
        e.t_umac_done = None;
        e.tx_reporter = TxReporter::new(e.tx_reporter.id);
        queue.push_back(msg);
        assert(self@.outbound =~= st.outbound.update(
            i as int,
            submitted(
                st.outbound[i as int],
                st.dltime.forward_spec(st.outbound[i as int].t_first.t),
            ),
        ));
    }

    /// Sends the acknowledgements that are owed. Returns true when there was one.
    pub fn submit_ack_replies_to_umac(&mut self, queue: &mut MessageQueue) -> (r: bool)
        ensures
            final(self)@ == (LlcView { out_acks: Seq::empty(), ..old(self)@ }),
            final(queue)@ == old(queue)@ + ack_msgs(old(self)@.out_acks),
            r == (old(self)@.out_acks.len() > 0),
    {
        let ghost st = self@;
        let ghost s = st.out_acks;
        let ghost q = queue@;
        let n: usize = self.scheduled_out_acks.len();
        let mut i: usize = 0;
        assert(q + ack_msgs(s.take(0)) =~= q);
        while i < n
            invariant
                i <= n,
                n == s.len(),
                s == self.scheduled_out_acks@,
                self@ == st,
                queue@ == q + ack_msgs(s.take(i as int)),
            decreases n - i,
        {
            let ack: ScheduledOutAck = self.scheduled_out_acks[i];
            let steal: bool = 2 <= ack.ts && ack.ts <= 4;
            let chan_alloc: Option<CmceChanAllocReq> = if steal {
                Some(
                    CmceChanAllocReq {
                        usage: None,
                        timeslots: TimeslotSet::only(ack.ts),
                        alloc_type: ChanAllocType::Replace,
                        ul_dl_assigned: UlDlAssignment::Both,
                        carrier: Some(ack.carrier_num),
                    },
                )
            } else {
                None
            };
            let body: Vec<bool> = Vec::new();
            let msg: SapMsg = make_tma_req(
                TmaUnitdataReq {
                    carrier_num: ack.carrier_num,
                    pdu: LlcPdu::BlAck { has_fcs: false, nr: ack.nr, body },
                    main_address: ack.addr,
                    link_id: if steal {
                        ack.ts as u32
                    } else {
                        0
                    },
                    endpoint_id: 0,
                    params: TxParams {
                        stealing_permission: steal,
                        chan_alloc,
                        ..TxParams::signalling()
                    },
                    tx_reporter: None,
                },
            );
            assert(msg@ == ack_msg(s[i as int]));
            queue.push_back(msg);
            i = i + 1;
            assert(queue@ =~= q + ack_msgs(s.take(i as int)));
        }
        assert(s.take(n as int) =~= s);
        self.scheduled_out_acks = Vec::new();
        assert(self@ =~= (LlcView { out_acks: Seq::empty(), ..st }));
        n > 0
    }

    /// Sends the messages that need no confirmation. Returns true when there was one.
    pub fn submit_udata_msgs_to_umac(&mut self, queue: &mut MessageQueue) -> (r: bool)
        ensures
            final(self)@ == (LlcView { udata: Seq::empty(), ..old(self)@ }),
            final(queue)@ == old(queue)@ + old(self)@.udata,
            r == (old(self)@.udata.len() > 0),
    {
        let ghost st = self@;
        let n: usize = self.outbound_udata_messages.len();
        let mut msgs: Vec<SapMsg> = Vec::new();
        std::mem::swap(&mut msgs, &mut self.outbound_udata_messages);
        queue.append(msgs);
        assert(self@ =~= (LlcView { udata: Seq::empty(), ..st }));
        n > 0
    }
}

/// The LLC after a look for retransmissions.
pub open spec fn after_retransmissions(st: LlcView) -> LlcView {
    let pass = retx_pass(st, st.outbound.len());
    LlcView { outbound: pass.kept, tx_outcomes: st.tx_outcomes + pass.outcomes, ..st }
}

/// The messages that a look for retransmissions sends again.
pub open spec fn retransmission_msgs(st: LlcView) -> Seq<SapMsgView> {
    retx_pass(st, st.outbound.len()).msgs
}

} // verus!
