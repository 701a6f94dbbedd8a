//! What the basic link does with each request and each PDU, told by what it leaves behind and
//! what it sends.

use crate::bits::BitsView;
use crate::fcs::fcs_valid;
use crate::llc::basic_link::{
    after_retransmissions, awaits_ack, first_ack, free_msgs, in_flight, is_first_ack, is_free,
    is_in_flight, retransmission_msgs, retx_pass,
};
use crate::llc::dispatch::{
    after_bl_tick, after_prim, after_report, bl_tick_msgs, prim_msgs,
};
use crate::llc::entity::{ExpectedView, LlcView, ScheduledOutAck};
use crate::llc::pdus::RxPduView;
use crate::saps::{
    ChanAllocType, CmceChanAllocReq, LlcPduView, ReporterId, Sap, SapInnerView, SapMsgView,
    SsiType, TetraEntity, TlaIndBlView, TlaReqBlView, TmaIndView, TmaReqView,
    TxParams, TxReporter, TxState, UlDlAssignment,
};
use crate::tdma::{time_at, TdmaTime};
use vstd::prelude::*;

verus! {

/// The primitive asks for a TL-SDU to be sent with acknowledgement.
pub open spec fn asks_data(m: SapMsgView, p: TlaReqBlView) -> bool {
    m.sap == Sap::TlaSap && m.msg == SapInnerView::TlaTlDataReqBl(p)
}

/// The primitive asks for a TL-SDU to be sent without acknowledgement.
pub open spec fn asks_unitdata(m: SapMsgView, p: TlaReqBlView) -> bool {
    m.sap == Sap::TlaSap && m.msg == SapInnerView::TlaTlUnitdataReqBl(p)
}

/// The MAC hands up a PDU.
pub open spec fn hands_up(m: SapMsgView, ind: TmaIndView) -> bool {
    m.sap == Sap::TmaSap && m.msg == SapInnerView::TmaUnitdataInd(ind)
}

/// The message hands a request to the MAC.
pub open spec fn to_mac(m: SapMsgView, req: TmaReqView) -> bool {
    &&& m.sap == Sap::TmaSap && m.src == TetraEntity::Llc && m.dest == TetraEntity::Umac
    &&& m.msg == SapInnerView::TmaUnitdataReq(req)
}

/// The carrier of a request: the one of its channel allocation, or else the main one.
pub open spec fn on_carrier(st: LlcView, p: TlaReqBlView, carrier: u16) -> bool {
    if p.params.chan_alloc matches Some(ca) && ca.carrier is Some {
        carrier == p.params.chan_alloc->0.carrier->0
    } else {
        carrier == st.config.main_carrier
    }
}

/// Acknowledgement `i` is owed to this subscriber on this carrier, and none that is older.
pub open spec fn owed_first(st: LlcView, ssi: u32, carrier: u16, i: int) -> bool {
    &&& 0 <= i < st.out_acks.len()
    &&& st.out_acks[i].addr.ssi == ssi && st.out_acks[i].carrier_num == carrier
    &&& forall|j: int|
        0 <= j < i ==> !((#[trigger] st.out_acks[j]).addr.ssi == ssi && st.out_acks[j].carrier_num
            == carrier)
}

/// No acknowledgement is owed to this subscriber on this carrier.
pub open spec fn owes_none(st: LlcView, ssi: u32, carrier: u16) -> bool {
    forall|j: int|
        0 <= j < st.out_acks.len() ==> !((#[trigger] st.out_acks[j]).addr.ssi == ssi
            && st.out_acks[j].carrier_num == carrier)
}

proof fn lemma_owed(st: LlcView, ssi: u32, carrier: u16)
    ensures
        forall|i: int| #[trigger]
            owed_first(st, ssi, carrier, i) ==> first_ack(st.out_acks, ssi, carrier) == Some(i),
        owes_none(st, ssi, carrier) ==> first_ack(st.out_acks, ssi, carrier) is None,
{
    assert forall|i: int| #[trigger] owed_first(st, ssi, carrier, i) implies first_ack(
        st.out_acks,
        ssi,
        carrier,
    ) == Some(i) by {
        assert(is_first_ack(st.out_acks, ssi, carrier, i));
        let c = choose|c: int| is_first_ack(st.out_acks, ssi, carrier, c);
        assert(is_first_ack(st.out_acks, ssi, carrier, c));
        assert(c == i);
    }
}

/// The options are those of the request, marked as signalling.
pub open spec fn as_signalling(asked: TxParams, sent: TxParams) -> bool {
    &&& sent.req_handle == asked.req_handle
    &&& sent.stealing_permission == asked.stealing_permission
    &&& sent.subscriber_class == asked.subscriber_class
    &&& sent.air_interface_encryption == asked.air_interface_encryption
    &&& sent.stealing_repeats_flag == asked.stealing_repeats_flag
    &&& sent.data_category == asked.data_category
    &&& sent.chan_alloc == asked.chan_alloc
    &&& !sent.packet_data_flag
}

/// The reporter is new and belongs to the requester who follows the message under `id`.
pub open spec fn follows(r: Option<TxReporter>, id: Option<u64>) -> bool {
    match id {
        Some(i) => r matches Some(t) && t.id == ReporterId::Requester(i) && t.state
            == TxState::Pending,
        None => r is None,
    }
}

// ---- requests ------------------------------------------------------------------------------------

/// A TL-SDU is taken if it is no longer than N.251 allows; a longer one leaves no trace.
pub proof fn law_too_long_sdu_is_dropped(st: LlcView, m: SapMsgView, p: TlaReqBlView)
    requires
        asks_data(m, p) || asks_unitdata(m, p),
        p.tl_sdu.len() > st.config.limits.n251_bl_max_tlsdu_len_bits,
    ensures
        after_prim(st, m) == st,
        prim_msgs(st, m).len() == 0,
{
}

/// The message waits to be sent under acknowledgement: it carries exactly the bits of the
/// TL-SDU, with the check sequence flag of the request, under number `ns`, and acknowledges
/// `nr` if that is owed.
pub open spec fn carries_sdu(e: ExpectedView, p: TlaReqBlView, ns: u8, nr: Option<u8>) -> bool {
    &&& e.ns == ns
    &&& match nr {
        Some(n) => e.retransmission_buf.pdu == (LlcPduView::BlAdata {
            has_fcs: p.fcs_flag,
            nr: n,
            ns,
            body: p.tl_sdu,
        }),
        None => e.retransmission_buf.pdu == (LlcPduView::BlData {
            has_fcs: p.fcs_flag,
            ns,
            body: p.tl_sdu,
        }),
    }
}

/// The message goes to whom the request says.
pub open spec fn addressed(e: ExpectedView, p: TlaReqBlView, carrier: u16, now: TdmaTime) -> bool {
    let b = e.retransmission_buf;
    &&& e.addr == p.main_address && b.main_address == p.main_address
    &&& e.carrier_num == carrier && b.carrier_num == carrier
    &&& b.endpoint_id == p.endpoint_id && b.link_id == 0
    &&& as_signalling(p.params, b.params)
    &&& b.tx_reporter == Some(e.tx_reporter)
    &&& e.t_first == now
    &&& e.t_submitted_to_umac is None && e.t_umac_done is None && e.retransmit_count == 0
    &&& e.tx_reporter.state == TxState::Pending
    &&& e.bl_type == crate::saps::Layer2Service::Acknowledged
}

/// The timeslot of a request: the lowest of its channel allocation, or else the first.
pub open spec fn on_timeslot(p: TlaReqBlView, ts: u8) -> bool {
    match p.params.chan_alloc {
        Some(ca) => {
            let t = ca.timeslots;
            ts == (if t.ts1 {
                1int
            } else if t.ts2 {
                2
            } else if t.ts3 {
                3
            } else if t.ts4 {
                4
            } else {
                1
            })
        },
        None => ts == 1,
    }
}

/// A TL-DATA request to one subscriber, on no stolen channel, queues one message behind the
/// others. It carries exactly the TL-SDU, as BL-DATA, or as BL-ADATA with the oldest
/// acknowledgement owed to the subscriber, which is then no longer owed. Its number is the next
/// of the subscriber, the first being zero, and the one after it is the other of zero and one.
/// Nothing is sent before the tick.
pub proof fn law_data_request_is_queued(st: LlcView, m: SapMsgView, p: TlaReqBlView, carrier: u16)
    requires
        st.wf(),
        asks_data(m, p),
        p.tl_sdu.len() <= st.config.limits.n251_bl_max_tlsdu_len_bits,
        !p.params.stealing_permission,
        p.main_address.ssi_type != SsiType::Gssi,
        on_carrier(st, p, carrier),
    ensures
        ({
            let t = after_prim(st, m);
            let n = st.outbound.len() as int;
            let e = t.outbound[n];
            let ssi = p.main_address.ssi;
            let ns: u8 = if st.send_seq.contains_key(ssi) {
                st.send_seq[ssi]
            } else {
                0
            };
            &&& prim_msgs(st, m).len() == 0
            &&& t.outbound.len() == n + 1
            &&& forall|k: int| 0 <= k < n ==> #[trigger] t.outbound[k] == st.outbound[k]
            &&& addressed(e, p, carrier, st.dltime)
            &&& on_timeslot(p, e.ts)
            &&& e.tx_reporter.id == (match p.tx_reporter {
                Some(i) => ReporterId::Requester(i),
                None => ReporterId::Llc(st.next_id),
            })
            &&& forall|i: int| #[trigger]
                owed_first(st, ssi, carrier, i) ==> carries_sdu(e, p, ns, Some(st.out_acks[i].nr))
                    && t.out_acks == st.out_acks.remove(i)
            &&& owes_none(st, ssi, carrier) ==> carries_sdu(e, p, ns, None) && t.out_acks
                == st.out_acks
            &&& t.send_seq.contains_key(ssi) && t.send_seq[ssi] != ns && t.send_seq[ssi] <= 1
            &&& forall|o: u32|
                o != ssi ==> (#[trigger] t.send_seq.contains_key(o) <==> st.send_seq.contains_key(
                    o,
                )) && (st.send_seq.contains_key(o) ==> t.send_seq[o] == st.send_seq[o])
            &&& p.tx_reporter is Some ==> t.next_id == st.next_id
            &&& p.tx_reporter is None ==> t.next_id != st.next_id
            &&& t.udata == st.udata && t.links == st.links && t.deliveries == st.deliveries
                && t.config == st.config && t.dltime == st.dltime && t.tx_outcomes
                == st.tx_outcomes
        }),
{
    lemma_owed(st, p.main_address.ssi, carrier);
}

/// The message carries a TL-SDU without acknowledgement.
pub open spec fn unconfirmed(m: SapMsgView, p: TlaReqBlView, pdu: LlcPduView, carrier: u16, link_id: u32) -> bool {
    exists|req: TmaReqView| #[trigger]
        to_mac(m, req) && {
            &&& req.pdu == pdu
            &&& req.main_address == p.main_address
            &&& req.carrier_num == carrier
            &&& req.link_id == link_id && req.endpoint_id == p.endpoint_id
            &&& follows(req.tx_reporter, p.tx_reporter)
        }
}

/// One message joins those that need no confirmation; nothing else changes but the
/// acknowledgements owed.
pub open spec fn joins_udata(st: LlcView, t: LlcView) -> bool {
    &&& t.udata.len() == st.udata.len() + 1
    &&& forall|k: int| 0 <= k < st.udata.len() ==> #[trigger] t.udata[k] == st.udata[k]
    &&& t == (LlcView { udata: t.udata, out_acks: t.out_acks, ..st })
}

/// The request that a message hands to the MAC.
pub open spec fn req_of(m: SapMsgView) -> TmaReqView {
    m.msg->TmaUnitdataReq_0
}

/// A TL-DATA request on a stolen channel goes out with the oldest acknowledgement owed to the
/// subscriber: the BL-ACK carries exactly the TL-SDU. Without one, and to a group, a BL-UDATA
/// carries it.
pub proof fn law_data_request_without_queue(st: LlcView, m: SapMsgView, p: TlaReqBlView, carrier: u16)
    requires
        st.wf(),
        asks_data(m, p),
        p.tl_sdu.len() <= st.config.limits.n251_bl_max_tlsdu_len_bits,
        p.params.stealing_permission || p.main_address.ssi_type == SsiType::Gssi,
        on_carrier(st, p, carrier),
    ensures
        ({
            let t = after_prim(st, m);
            let ssi = p.main_address.ssi;
            let sent = t.udata.last();
            &&& prim_msgs(st, m).len() == 0
            &&& joins_udata(st, t)
            &&& as_signalling(p.params, req_of(sent).params)
            &&& forall|i: int|
                p.params.stealing_permission && #[trigger] owed_first(st, ssi, carrier, i)
                    ==> unconfirmed(
                    sent,
                    p,
                    LlcPduView::BlAck {
                        has_fcs: p.fcs_flag,
                        nr: st.out_acks[i].nr,
                        body: p.tl_sdu,
                    },
                    carrier,
                    p.link_id,
                ) && t.out_acks == st.out_acks.remove(i)
            &&& !p.params.stealing_permission || owes_none(st, ssi, carrier) ==> unconfirmed(
                sent,
                p,
                LlcPduView::BlUdata { has_fcs: p.fcs_flag, body: p.tl_sdu },
                carrier,
                0,
            ) && t.out_acks == st.out_acks
        }),
{
    lemma_owed(st, p.main_address.ssi, carrier);
    let sent = after_prim(st, m).udata.last();
    assert(to_mac(sent, req_of(sent)));
}

/// A TL-UNITDATA request goes out as BL-UDATA with exactly the bits of its TL-SDU, over the
/// link of the request and with its options but for the stolen repetition.
pub proof fn law_unitdata_request(st: LlcView, m: SapMsgView, p: TlaReqBlView, carrier: u16)
    requires
        asks_unitdata(m, p),
        p.tl_sdu.len() <= st.config.limits.n251_bl_max_tlsdu_len_bits,
        on_carrier(st, p, carrier),
    ensures
        ({
            let t = after_prim(st, m);
            let sent = t.udata.last();
            &&& prim_msgs(st, m).len() == 0
            &&& joins_udata(st, t)
            &&& t.out_acks == st.out_acks
            &&& unconfirmed(
                sent,
                p,
                LlcPduView::BlUdata { has_fcs: p.fcs_flag, body: p.tl_sdu },
                carrier,
                p.link_id,
            )
            &&& req_of(sent).params == (TxParams { stealing_repeats_flag: None, ..p.params })
        }),
{
    let sent = after_prim(st, m).udata.last();
    assert(to_mac(sent, req_of(sent)));
}

// ---- the tick ------------------------------------------------------------------------------------

/// When the MAC was done with a message, as seen at `now`.
pub open spec fn done_by(e: ExpectedView, now: TdmaTime) -> Option<TdmaTime> {
    if e.t_umac_done is None && (e.tx_reporter.state == TxState::Transmitted || e.tx_reporter.state
        == TxState::Discarded) {
        Some(now)
    } else {
        e.t_umac_done
    }
}

/// The confirmation of a message is overdue: T.251 has run out since the MAC was done with it.
pub open spec fn overdue(e: ExpectedView, st: LlcView) -> bool {
    done_by(e, st.dltime) matches Some(t) && !(t.slot_index() <= st.dltime.slot_index()
        < t.slot_index() + st.config.limits.t251_sender_retry)
}

/// An overdue message that was repeated less than N.252 times is repeated.
pub open spec fn repeats(e: ExpectedView, st: LlcView) -> bool {
    overdue(e, st) && e.retransmit_count < st.config.limits.n252_bl_max_retransmits
}

/// An overdue message that was repeated N.252 times is given up.
pub open spec fn gives_up(e: ExpectedView, st: LlcView) -> bool {
    overdue(e, st) && e.retransmit_count >= st.config.limits.n252_bl_max_retransmits
}

/// The message is the same: its contents, its number and its reporter.
pub open spec fn same_message(e: ExpectedView, f: ExpectedView) -> bool {
    &&& f.retransmission_buf == e.retransmission_buf
    &&& f.addr == e.addr && f.ns == e.ns && f.carrier_num == e.carrier_num && f.ts == e.ts
    &&& f.t_first == e.t_first && f.bl_type == e.bl_type
    &&& f.tx_reporter.id == e.tx_reporter.id
}

/// The message has just been handed to the MAC, for the next timeslot of the kind that it came
/// on.
pub open spec fn handed_down(f: ExpectedView, now: TdmaTime) -> bool {
    &&& f.t_submitted_to_umac == Some(now.forward_spec(f.t_first.t))
    &&& f.t_umac_done is None
    &&& f.tx_reporter.state == TxState::Pending
}

/// What a look for retransmissions makes of a message that stays.
pub open spec fn looked_at(e: ExpectedView, f: ExpectedView, st: LlcView) -> bool {
    &&& same_message(e, f)
    &&& if repeats(e, st) {
        f.retransmit_count == e.retransmit_count + 1 && handed_down(f, st.dltime)
    } else {
        &&& f.retransmit_count == e.retransmit_count
        &&& f.t_submitted_to_umac == e.t_submitted_to_umac
        &&& f.tx_reporter.state == e.tx_reporter.state
        &&& f.t_umac_done == done_by(e, st.dltime)
    }
}

/// The messages of the first `n` that stay.
pub open spec fn staying(st: LlcView, n: nat) -> Seq<ExpectedView> {
    st.outbound.take(n as int).filter(|e: ExpectedView| !gives_up(e, st))
}

/// The messages of the first `n` that are repeated.
pub open spec fn repeating(st: LlcView, n: nat) -> Seq<ExpectedView> {
    st.outbound.take(n as int).filter(|e: ExpectedView| repeats(e, st))
}

/// The messages of the first `n` that are given up and were on the air.
pub open spec fn losing(st: LlcView, n: nat) -> Seq<ExpectedView> {
    st.outbound.take(n as int).filter(
        |e: ExpectedView| gives_up(e, st) && e.tx_reporter.state == TxState::Transmitted,
    )
}

proof fn lemma_look(st: LlcView, n: nat)
    requires
        n <= st.outbound.len(),
    ensures
        ({
            let p = retx_pass(st, n);
            &&& p.kept.len() == staying(st, n).len()
            &&& forall|k: int|
                0 <= k < p.kept.len() ==> looked_at(staying(st, n)[k], #[trigger] p.kept[k], st)
            &&& p.msgs.len() == repeating(st, n).len()
            &&& forall|k: int|
                0 <= k < p.msgs.len() ==> to_mac(
                    #[trigger] p.msgs[k],
                    repeating(st, n)[k].retransmission_buf,
                )
            &&& p.outcomes.len() == losing(st, n).len()
            &&& forall|k: int|
                0 <= k < p.outcomes.len() ==> (#[trigger] p.outcomes[k]).id == losing(
                    st,
                    n,
                )[k].tx_reporter.id && p.outcomes[k].state == TxState::Lost
        }),
    decreases n,
{
    reveal(Seq::filter);
    if n > 0 {
        let m = (n - 1) as nat;
        lemma_look(st, m);
        let whole = st.outbound.take(n as int);
        assert(whole.drop_last() =~= st.outbound.take(m as int));
        assert(whole.last() == st.outbound[m as int]);
    } else {
        assert(st.outbound.take(0) =~= Seq::<ExpectedView>::empty());
    }
}

/// A tick looks at every message that waits for its confirmation. One that is overdue is sent
/// again, the same message under the same number, as often as N.252 allows; after that it is
/// given up, and reported as lost if it was on the air. The others wait on, in their order.
pub proof fn law_tick_repeats_overdue_messages(st: LlcView)
    requires
        st.wf(),
    ensures
        ({
            let n = st.outbound.len();
            let t = after_retransmissions(st);
            let msgs = retransmission_msgs(st);
            &&& t.outbound.len() == staying(st, n).len()
            &&& forall|k: int|
                0 <= k < t.outbound.len() ==> looked_at(
                    staying(st, n)[k],
                    #[trigger] t.outbound[k],
                    st,
                )
            &&& msgs.len() == repeating(st, n).len()
            &&& forall|k: int|
                0 <= k < msgs.len() ==> to_mac(
                    #[trigger] msgs[k],
                    repeating(st, n)[k].retransmission_buf,
                )
            &&& t.tx_outcomes.len() == st.tx_outcomes.len() + losing(st, n).len()
            &&& forall|k: int|
                0 <= k < st.tx_outcomes.len() ==> #[trigger] t.tx_outcomes[k] == st.tx_outcomes[k]
            &&& forall|k: int|
                0 <= k < losing(st, n).len() ==> {
                    let r = #[trigger] t.tx_outcomes[st.tx_outcomes.len() + k];
                    r.id == losing(st, n)[k].tx_reporter.id && r.state == TxState::Lost
                }
            &&& t == (LlcView { outbound: t.outbound, tx_outcomes: t.tx_outcomes, ..st })
        }),
{
    lemma_look(st, st.outbound.len());
}

/// A message may go: it never went, and no older one is for the same subscriber.
pub open spec fn may_go(s: Seq<ExpectedView>, k: int) -> bool {
    &&& 0 <= k < s.len()
    &&& s[k].t_submitted_to_umac is None
    &&& forall|j: int| 0 <= j < k ==> (#[trigger] s[j]).addr.ssi != s[k].addr.ssi
}

/// One of the messages hands this request to the MAC.
pub open spec fn sends(msgs: Seq<SapMsgView>, req: TmaReqView) -> bool {
    exists|i: int| 0 <= i < msgs.len() && to_mac(#[trigger] msgs[i], req)
}

/// The message is one of the first `n` that may go.
pub open spec fn may_be_sent(m: SapMsgView, s: Seq<ExpectedView>, n: nat) -> bool {
    exists|k: int| k < n && #[trigger] may_go(s, k) && to_mac(m, s[k].retransmission_buf)
}

proof fn lemma_free(s: Seq<ExpectedView>, n: nat)
    requires
        n <= s.len(),
    ensures
        forall|k: int|
            k < n && #[trigger] may_go(s, k) ==> sends(free_msgs(s, n), s[k].retransmission_buf),
        forall|i: int|
            0 <= i < free_msgs(s, n).len() ==> may_be_sent(#[trigger] free_msgs(s, n)[i], s, n),
    decreases n,
{
    if n > 0 {
        let m = (n - 1) as nat;
        lemma_free(s, m);
        let before = free_msgs(s, m);
        let after = free_msgs(s, n);
        assert(is_free(s, n - 1) == may_go(s, n - 1));
        assert forall|k: int| k < n && #[trigger] may_go(s, k) implies sends(
            after,
            s[k].retransmission_buf,
        ) by {
            if k < n - 1 {
                let i = choose|i: int|
                    0 <= i < before.len() && to_mac(
                        #[trigger] before[i],
                        s[k].retransmission_buf,
                    );
                assert(to_mac(after[i], s[k].retransmission_buf));
            } else {
                assert(to_mac(after[before.len() as int], s[k].retransmission_buf));
            }
        }
        assert forall|i: int| 0 <= i < after.len() implies may_be_sent(
            #[trigger] after[i],
            s,
            n,
        ) by {
            if i < before.len() {
                assert(after[i] == before[i]);
                assert(may_be_sent(before[i], s, m));
            } else {
                assert(may_go(s, n - 1));
            }
        }
    }
}

/// A tick hands down every message that may go, and marks it so. It sends, in this order: the
/// repetitions, the messages that may go, one BL-ACK for each acknowledgement owed, and the
/// messages that need no confirmation, as they are.
pub proof fn law_tick_sends_what_is_due(st: LlcView)
    requires
        st.wf(),
    ensures
        ({
            let s = after_retransmissions(st).outbound;
            let t = after_bl_tick(st);
            let again = retransmission_msgs(st);
            let first = free_msgs(s, s.len());
            let msgs = bl_tick_msgs(st);
            &&& msgs.len() == again.len() + first.len() + st.out_acks.len() + st.udata.len()
            &&& forall|i: int| 0 <= i < again.len() ==> #[trigger] msgs[i] == again[i]
            &&& forall|i: int|
                0 <= i < first.len() ==> #[trigger] first[i] == msgs[again.len() + i]
            &&& forall|i: int|
                0 <= i < st.out_acks.len() ==> acknowledges(
                    msgs[again.len() + first.len() + i],
                    #[trigger] st.out_acks[i],
                )
            &&& forall|i: int|
                0 <= i < st.udata.len() ==> #[trigger] st.udata[i] == msgs[again.len()
                    + first.len() + st.out_acks.len() + i]
            &&& forall|k: int| #[trigger] may_go(s, k) ==> sends(first, s[k].retransmission_buf)
            &&& forall|i: int|
                0 <= i < first.len() ==> may_be_sent(#[trigger] first[i], s, s.len())
            &&& t.outbound.len() == s.len()
            &&& forall|k: int|
                0 <= k < s.len() ==> {
                    let f = #[trigger] t.outbound[k];
                    if may_go(s, k) {
                        same_message(s[k], f) && handed_down(f, st.dltime) && f.retransmit_count
                            == s[k].retransmit_count
                    } else {
                        f == s[k]
                    }
                }
            &&& t.out_acks.len() == 0 && t.udata.len() == 0
            &&& t.links == st.links && t.send_seq == st.send_seq && t.deliveries == st.deliveries
                && t.next_id == st.next_id && t.config == st.config && t.dltime == st.dltime
        }),
{
    let s = after_retransmissions(st).outbound;
    lemma_free(s, s.len());
    assert forall|k: int| 0 <= k < s.len() implies is_free(s, k) == #[trigger] may_go(s, k) by {}
    let t = after_bl_tick(st);
    let msgs = bl_tick_msgs(st);
    let base = retransmission_msgs(st).len() + free_msgs(s, s.len()).len();
    assert forall|i: int| 0 <= i < st.out_acks.len() implies acknowledges(
        msgs[base + i],
        #[trigger] st.out_acks[i],
    ) by {
        assert(to_mac(msgs[base + i], req_of(msgs[base + i])));
    }
    assert forall|k: int| 0 <= k < s.len() implies ({
        let f = #[trigger] t.outbound[k];
        if may_go(s, k) {
            same_message(s[k], f) && handed_down(f, st.dltime) && f.retransmit_count
                == s[k].retransmit_count
        } else {
            f == s[k]
        }
    }) by {
        assert(is_free(s, k) == may_go(s, k));
    }
}

/// The message is a BL-ACK without a TL-SDU for this acknowledgement. For a message that came
/// on a traffic channel it goes there by stealing.
pub open spec fn acknowledges(m: SapMsgView, a: ScheduledOutAck) -> bool {
    exists|req: TmaReqView| #[trigger]
        to_mac(m, req) && {
            let stolen = a.ts == 2 || a.ts == 3 || a.ts == 4;
            &&& req.pdu == (LlcPduView::BlAck {
                has_fcs: false,
                nr: a.nr,
                body: Seq::<bool>::empty(),
            })
            &&& req.main_address == a.addr && req.carrier_num == a.carrier_num
            &&& req.endpoint_id == 0 && req.tx_reporter is None
            &&& req.params.stealing_permission == stolen && !req.params.packet_data_flag
            &&& req.link_id == (if stolen {
                a.ts as int
            } else {
                0
            })
            &&& match req.params.chan_alloc {
                Some(g) => stolen && g.carrier == Some(a.carrier_num) && g.usage is None
                    && g.alloc_type == ChanAllocType::Replace && g.ul_dl_assigned
                    == UlDlAssignment::Both && only_timeslot(g, a.ts),
                None => !stolen,
            }
        }
}

/// The grant names one timeslot.
pub open spec fn only_timeslot(g: CmceChanAllocReq, ts: u8) -> bool {
    let t = g.timeslots;
    t.ts1 == (ts == 1) && t.ts2 == (ts == 2) && t.ts3 == (ts == 3) && t.ts4 == (ts == 4)
}

// ---- reception -----------------------------------------------------------------------------------

/// The LLC tells the layer above.
pub open spec fn tells(m: SapMsgView, inner: SapInnerView) -> bool {
    &&& m.sap == Sap::TlaSap && m.src == TetraEntity::Llc && m.dest == TetraEntity::Mle
    &&& m.msg == inner
}

/// The indication is about the message that came in: from whom, where, with which bits. There
/// is no TL-SDU where no bits are left.
pub open spec fn indicates(i: TlaIndBlView, ind: TmaIndView, bits: Seq<bool>, fcs: bool) -> bool {
    &&& i.main_address == ind.main_address && i.endpoint_id == ind.endpoint_id
    &&& i.channel == ind.channel && i.fcs_flag == fcs
    &&& if bits.len() == 0 {
        i.tl_sdu is None
    } else {
        i.tl_sdu == Some(bits)
    }
}

/// A basic-link PDU whose check sequence does not hold changes nothing and is not delivered.
pub proof fn law_damaged_pdu_is_dropped(st: LlcView, m: SapMsgView, ind: TmaIndView, pdu: RxPduView)
    requires
        hands_up(m, ind),
        ind.pdu == Some(pdu),
        match pdu {
            RxPduView::BlAdata { has_fcs, nr, ns, body } => has_fcs && !fcs_valid(
                body.bits.subrange(body.pos, body.bits.len() as int),
            ),
            RxPduView::BlData { has_fcs, ns, body } => has_fcs && !fcs_valid(
                body.bits.subrange(body.pos, body.bits.len() as int),
            ),
            RxPduView::BlAck { has_fcs, nr, body } => has_fcs && !fcs_valid(
                body.bits.subrange(body.pos, body.bits.len() as int),
            ),
            RxPduView::BlUdata { has_fcs, body } => has_fcs && !fcs_valid(
                body.bits.subrange(body.pos, body.bits.len() as int),
            ),
            _ => false,
        },
    ensures
        after_prim(st, m) == st,
        prim_msgs(st, m).len() == 0,
{
}

/// What is not understood changes nothing, and neither does an indication without a PDU.
pub proof fn law_foreign_pdu_is_dropped(st: LlcView, m: SapMsgView, ind: TmaIndView)
    requires
        hands_up(m, ind),
        ind.pdu is None || ind.pdu == Some(RxPduView::Unsupported) || ind.pdu == Some(
            RxPduView::Malformed,
        ),
    ensures
        after_prim(st, m) == st,
        prim_msgs(st, m).len() == 0,
{
}

/// The acknowledgement is for number `ns` of the message that came in; its timeslot is the one
/// of two slots ago.
pub open spec fn owed_for(a: ScheduledOutAck, st: LlcView, ind: TmaIndView, ns: u8) -> bool {
    &&& a.addr == ind.main_address && a.carrier_num == ind.carrier_num && a.nr == ns
    &&& a.t_start == time_at(st.dltime.slot_index() - 2) && a.ts == a.t_start.t
}

/// A numbered message that is intact is delivered once, with exactly the bits behind its
/// header, and an acknowledgement of its number is owed behind those that are owed already.
pub proof fn law_data_is_delivered(st: LlcView, m: SapMsgView, ind: TmaIndView, has_fcs: bool, ns: u8, body: BitsView)
    requires
        hands_up(m, ind),
        ind.pdu == Some(RxPduView::BlData { has_fcs, ns, body }),
        has_fcs ==> fcs_valid(body.bits.subrange(body.pos, body.bits.len() as int)),
    ensures
        ({
            let t = after_prim(st, m);
            let msgs = prim_msgs(st, m);
            let bits = body.bits.subrange(body.pos, body.bits.len() as int);
            &&& msgs.len() == 1
            &&& exists|i: TlaIndBlView| #[trigger]
                tells(msgs[0], SapInnerView::TlaTlDataIndBl(i)) && indicates(i, ind, bits, has_fcs)
                    && i.link_id == ind.link_id
            &&& t.out_acks.len() == st.out_acks.len() + 1
            &&& t.out_acks.drop_last() == st.out_acks
            &&& owed_for(t.out_acks.last(), st, ind, ns)
            &&& t == (LlcView { out_acks: t.out_acks, ..st })
        }),
{
    let msgs = prim_msgs(st, m);
    assert(tells(msgs[0], SapInnerView::TlaTlDataIndBl(msgs[0].msg->TlaTlDataIndBl_0)));
    assert(after_prim(st, m).out_acks.drop_last() =~= st.out_acks);
}

/// A message that asks for no confirmation is delivered once, with exactly the bits behind its
/// header, and nothing is owed for it.
pub proof fn law_unconfirmed_data_is_delivered(st: LlcView, m: SapMsgView, ind: TmaIndView, has_fcs: bool, body: BitsView)
    requires
        hands_up(m, ind),
        ind.pdu == Some(RxPduView::BlUdata { has_fcs, body }),
        has_fcs ==> fcs_valid(body.bits.subrange(body.pos, body.bits.len() as int)),
    ensures
        ({
            let msgs = prim_msgs(st, m);
            let bits = body.bits.subrange(body.pos, body.bits.len() as int);
            &&& msgs.len() == 1
            &&& exists|i: TlaIndBlView| #[trigger]
                tells(msgs[0], SapInnerView::TlaTlUnitdataIndBl(i)) && indicates(
                    i,
                    ind,
                    bits,
                    has_fcs,
                ) && i.link_id == 0
            &&& after_prim(st, m) == st
        }),
{
    let msgs = prim_msgs(st, m);
    assert(tells(msgs[0], SapInnerView::TlaTlUnitdataIndBl(msgs[0].msg->TlaTlUnitdataIndBl_0)));
}

/// Message `i` is the one to this subscriber on this carrier that is in flight.
pub open spec fn awaits(s: Seq<ExpectedView>, ssi: u32, carrier: u16, i: int) -> bool {
    &&& 0 <= i < s.len()
    &&& s[i].addr.ssi == ssi && s[i].carrier_num == carrier && s[i].t_submitted_to_umac is Some
}

/// What a confirmation of number `nr` from a subscriber on a carrier does. If the message in
/// flight has been on its way and has that number, it is done and reported so. If not, it goes
/// to the head of the queue and waits on. Without one in flight nothing happens.
pub open spec fn confirmed(st: LlcView, t: LlcView, ssi: u32, carrier: u16, nr: u8) -> bool {
    &&& forall|i: int| #[trigger]
        awaits(st.outbound, ssi, carrier, i) ==> {
            let e = st.outbound[i];
            if e.t_umac_done is Some && e.ns == nr {
                &&& t.outbound == st.outbound.remove(i)
                &&& t.tx_outcomes.len() == st.tx_outcomes.len() + 1
                &&& t.tx_outcomes.drop_last() == st.tx_outcomes
                &&& t.tx_outcomes.last().id == e.tx_reporter.id
                &&& t.tx_outcomes.last().state == TxState::Acknowledged
            } else {
                t.outbound == seq![e] + st.outbound.remove(i) && t.tx_outcomes == st.tx_outcomes
            }
        }
    &&& (forall|i: int| !awaits(st.outbound, ssi, carrier, i)) ==> t.outbound == st.outbound
        && t.tx_outcomes == st.tx_outcomes
}

proof fn lemma_awaits(st: LlcView, ssi: u32, carrier: u16)
    requires
        st.wf(),
    ensures
        forall|i: int| #[trigger]
            awaits(st.outbound, ssi, carrier, i) ==> in_flight(st.outbound, ssi, carrier) == Some(i),
        (forall|i: int| !awaits(st.outbound, ssi, carrier, i)) ==> in_flight(
            st.outbound,
            ssi,
            carrier,
        ) is None,
{
    let s = st.outbound;
    assert forall|i: int| #[trigger] awaits(s, ssi, carrier, i) implies in_flight(s, ssi, carrier)
        == Some(i) by {
        assert forall|j: int| 0 <= j < i implies !awaits_ack(#[trigger] s[j], ssi, carrier) by {
            if awaits_ack(s[j], ssi, carrier) {
                assert(s[j].addr.ssi == s[i].addr.ssi);
            }
        }
        assert(is_in_flight(s, ssi, carrier, i));
        let c = choose|c: int| is_in_flight(s, ssi, carrier, c);
        assert(is_in_flight(s, ssi, carrier, c));
        assert(c == i);
    }
    if forall|i: int| !awaits(s, ssi, carrier, i) {
        assert forall|i: int| !is_in_flight(s, ssi, carrier, i) by {
            assert(!awaits(s, ssi, carrier, i));
        }
    }
}

/// A BL-ACK that is intact confirms the message in flight to its sender. What it carries behind
/// its header is delivered; an empty one delivers nothing. It is owed no acknowledgement.
pub proof fn law_ack_confirms(st: LlcView, m: SapMsgView, ind: TmaIndView, has_fcs: bool, nr: u8, body: BitsView)
    requires
        st.wf(),
        hands_up(m, ind),
        ind.pdu == Some(RxPduView::BlAck { has_fcs, nr, body }),
        has_fcs ==> fcs_valid(body.bits.subrange(body.pos, body.bits.len() as int)),
    ensures
        ({
            let t = after_prim(st, m);
            let msgs = prim_msgs(st, m);
            let bits = body.bits.subrange(body.pos, body.bits.len() as int);
            &&& confirmed(st, t, ind.main_address.ssi, ind.carrier_num, nr)
            &&& t == (LlcView { outbound: t.outbound, tx_outcomes: t.tx_outcomes, ..st })
            &&& bits.len() == 0 ==> msgs.len() == 0
            &&& bits.len() > 0 ==> msgs.len() == 1 && exists|i: TlaIndBlView| #[trigger]
                tells(msgs[0], SapInnerView::TlaTlDataIndBl(i)) && indicates(i, ind, bits, has_fcs)
                    && i.link_id == 0
        }),
{
    lemma_awaits(st, ind.main_address.ssi, ind.carrier_num);
    let msgs = prim_msgs(st, m);
    let t = after_prim(st, m);
    if t.tx_outcomes.len() == st.tx_outcomes.len() + 1 {
        assert(t.tx_outcomes.drop_last() =~= st.tx_outcomes);
    }
    if msgs.len() == 1 {
        assert(tells(msgs[0], SapInnerView::TlaTlDataIndBl(msgs[0].msg->TlaTlDataIndBl_0)));
    }
}

/// A BL-ADATA that is intact is both: a numbered message, delivered and owed an
/// acknowledgement, and a confirmation.
pub proof fn law_adata_confirms_and_is_delivered(
    st: LlcView,
    m: SapMsgView,
    ind: TmaIndView,
    has_fcs: bool,
    nr: u8,
    ns: u8,
    body: BitsView,
)
    requires
        st.wf(),
        hands_up(m, ind),
        ind.pdu == Some(RxPduView::BlAdata { has_fcs, nr, ns, body }),
        has_fcs ==> fcs_valid(body.bits.subrange(body.pos, body.bits.len() as int)),
    ensures
        ({
            let t = after_prim(st, m);
            let msgs = prim_msgs(st, m);
            let bits = body.bits.subrange(body.pos, body.bits.len() as int);
            &&& confirmed(st, t, ind.main_address.ssi, ind.carrier_num, nr)
            &&& t.out_acks.len() == st.out_acks.len() + 1
            &&& t.out_acks.drop_last() == st.out_acks
            &&& owed_for(t.out_acks.last(), st, ind, ns)
            &&& msgs.len() == 1
            &&& exists|i: TlaIndBlView| #[trigger]
                tells(msgs[0], SapInnerView::TlaTlDataIndBl(i)) && indicates(i, ind, bits, has_fcs)
                    && i.link_id == ind.link_id
            &&& t == (LlcView {
                outbound: t.outbound,
                tx_outcomes: t.tx_outcomes,
                out_acks: t.out_acks,
                ..st
            })
        }),
{
    lemma_awaits(st, ind.main_address.ssi, ind.carrier_num);
    let msgs = prim_msgs(st, m);
    let t = after_prim(st, m);
    if t.tx_outcomes.len() == st.tx_outcomes.len() + 1 {
        assert(t.tx_outcomes.drop_last() =~= st.tx_outcomes);
    }
    assert(t.out_acks.drop_last() =~= st.out_acks);
    assert(tells(msgs[0], SapInnerView::TlaTlDataIndBl(msgs[0].msg->TlaTlDataIndBl_0)));
}

// ---- from one end to the other -------------------------------------------------------------------

/// A PDU as it arrives: the header that was sent and the bits that followed it.
pub open spec fn arrives_as(sent: LlcPduView, got: RxPduView) -> bool {
    match (sent, got) {
        (
            LlcPduView::BlData { has_fcs, ns, body },
            RxPduView::BlData { has_fcs: f, ns: n, body: b },
        ) => f == has_fcs && n == ns && b.pos == 0 && b.bits == body,
        (
            LlcPduView::BlAdata { has_fcs, nr, ns, body },
            RxPduView::BlAdata { has_fcs: f, nr: r, ns: n, body: b },
        ) => f == has_fcs && r == nr && n == ns && b.pos == 0 && b.bits == body,
        (LlcPduView::BlUdata { has_fcs, body }, RxPduView::BlUdata { has_fcs: f, body: b }) => f
            == has_fcs && b.pos == 0 && b.bits == body,
        _ => false,
    }
}

/// What one side is asked to send is what the other side is given: the message that a TL-DATA
/// request queues, whenever it is sent, is delivered with exactly the bits of the request.
pub proof fn law_peer_gets_what_was_requested(
    st: LlcView,
    m: SapMsgView,
    p: TlaReqBlView,
    carrier: u16,
    peer: LlcView,
    n: SapMsgView,
    ind: TmaIndView,
    pdu: RxPduView,
)
    requires
        st.wf(),
        peer.wf(),
        asks_data(m, p),
        p.tl_sdu.len() <= st.config.limits.n251_bl_max_tlsdu_len_bits,
        !p.params.stealing_permission,
        p.main_address.ssi_type != SsiType::Gssi,
        on_carrier(st, p, carrier),
        !p.fcs_flag,
        p.tl_sdu.len() > 0,
        hands_up(n, ind),
        ind.pdu == Some(pdu),
        arrives_as(after_prim(st, m).outbound.last().retransmission_buf.pdu, pdu),
    ensures
        prim_msgs(peer, n).len() == 1,
        prim_msgs(peer, n)[0].msg matches SapInnerView::TlaTlDataIndBl(i) && i.tl_sdu == Some(
            p.tl_sdu,
        ) && i.main_address == ind.main_address,
{
    law_data_request_is_queued(st, m, p, carrier);
    assert(p.tl_sdu.subrange(0, p.tl_sdu.len() as int) =~= p.tl_sdu);
}

// ---- reports of the MAC --------------------------------------------------------------------------

/// A report changes the state of the message that it is about, if that was handed down, and of
/// no other.
pub proof fn law_report_reaches_its_message(st: LlcView, id: ReporterId, state: TxState, k: int)
    requires
        0 <= k < st.outbound.len(),
    ensures
        ({
            let e = st.outbound[k];
            let f = after_report(st, id, state).outbound[k];
            &&& after_report(st, id, state).outbound.len() == st.outbound.len()
            &&& f.tx_reporter.id == e.tx_reporter.id
            &&& f.tx_reporter.state == (if e.tx_reporter.id == id && e.t_submitted_to_umac is Some {
                state
            } else {
                e.tx_reporter.state
            })
            &&& f == (ExpectedView { tx_reporter: f.tx_reporter, ..e })
        }),
{
}

} // verus!
