//! Entry points of the LLC: primitives from the layers around it, and the tick.

use crate::llc::al_link::AlLinkKey;
use crate::llc::al_rx::{
    after_ack_rnr, after_data, after_reconnect, after_setup, after_udata, data_msgs, disc_replies,
    reconnect_replies, setup_replies, udata_msgs,
};
use crate::llc::al_tx::{
    after_al_tick, after_enqueue, after_tlunitdata_req_al, data_link, enqueue_msgs, flushed,
    links_reported, pending_views, reported, req_key, tick_pass, tlunitdata_req_al_msgs, AlActivity,
};
use crate::llc::basic_link::{
    ack_msgs, after_bl_pdu, after_retransmissions, after_submission, after_tldata_req,
    after_tlunitdata_req, bl_deliveries, bl_header, free_msgs, retransmission_msgs,
};
use crate::llc::entity::{expected_views, expected_wf, ExpectedView, Llc, LlcView};
use crate::llc::link_table::drop_link;
use crate::llc::pdus::{RxPdu, RxPduView};
use crate::saps::{
    msg_views, MessageQueue, ReporterId, Sap, SapInnerView, SapMsg, SapMsgInner, SapMsgView,
    TmaIndView, TmaUnitdataInd, TxReporter, TxState,
};
use crate::tdma::TdmaTime;
use vstd::prelude::*;

verus! {

/// The acknowledged messages after the MAC reported `state` for number `id`.
pub open spec fn outbound_reported(s: Seq<ExpectedView>, id: ReporterId, state: TxState) -> Seq<ExpectedView> {
    Seq::new(
        s.len(),
        |i: int|
            if s[i].t_submitted_to_umac is Some {
                ExpectedView { tx_reporter: reported(s[i].tx_reporter, id, state), ..s[i] }
            } else {
                s[i]
            },
    )
}

/// The LLC after the MAC reported `state` for number `id`.
pub open spec fn after_report(st: LlcView, id: ReporterId, state: TxState) -> LlcView {
    LlcView {
        outbound: outbound_reported(st.outbound, id, state),
        links: links_reported(st.links, id, state),
        ..st
    }
}

/// The LLC after an advanced-link PDU from the MAC. AL-DATA, AL-UDATA and AL-ACK carry no
/// link number; they go to the first link of the address.
pub open spec fn after_al_pdu(st: LlcView, ind: TmaIndView, pdu: RxPduView) -> LlcView {
    let by_address = data_link(st.links, ind.main_address.ssi, ind.link_id, ind.endpoint_id);
    match pdu {
        RxPduView::AlSetup(p) => after_setup(
            st,
            AlLinkKey::of(
                ind.main_address,
                ind.link_id,
                ind.endpoint_id,
                p.advanced_link_number_n261,
            ),
            ind.carrier_num,
            ind.main_address,
            p,
        ),
        RxPduView::AlData { ar, n_s, feed } => match by_address {
            Some(key) => after_data(st, key, ar, n_s, feed),
            None => st,
        },
        RxPduView::AlUdata { n_s, unack_feed } => match by_address {
            Some(key) => after_udata(st, key, n_s, unack_feed),
            None => st,
        },
        RxPduView::AlAck(p) => match by_address {
            Some(key) => after_ack_rnr(st, key, p),
            None => st,
        },
        RxPduView::AlReconnect(p) => after_reconnect(
            st,
            AlLinkKey::of(
                ind.main_address,
                ind.link_id,
                ind.endpoint_id,
                p.advanced_link_number_n261,
            ),
            ind.carrier_num,
            ind.main_address,
            p,
        ),
        RxPduView::AlDisc(p) => LlcView {
            links: drop_link(
                st.links,
                AlLinkKey::of(
                    ind.main_address,
                    ind.link_id,
                    ind.endpoint_id,
                    p.advanced_link_number_n261,
                ),
            ),
            ..st
        },
        _ => st,
    }
}

/// What an advanced-link PDU from the MAC sends.
pub open spec fn al_pdu_msgs(st: LlcView, ind: TmaIndView, pdu: RxPduView) -> Seq<SapMsgView> {
    let by_address = data_link(st.links, ind.main_address.ssi, ind.link_id, ind.endpoint_id);
    match pdu {
        RxPduView::AlSetup(p) => setup_replies(
            st,
            AlLinkKey::of(
                ind.main_address,
                ind.link_id,
                ind.endpoint_id,
                p.advanced_link_number_n261,
            ),
            ind.carrier_num,
            ind.main_address,
            p,
        ),
        RxPduView::AlData { ar, n_s, feed } => match by_address {
            Some(key) => data_msgs(st, key, ar, n_s, feed),
            None => Seq::empty(),
        },
        RxPduView::AlUdata { n_s, unack_feed } => match by_address {
            Some(key) => udata_msgs(st, key, unack_feed),
            None => Seq::empty(),
        },
        RxPduView::AlReconnect(p) => reconnect_replies(
            AlLinkKey::of(
                ind.main_address,
                ind.link_id,
                ind.endpoint_id,
                p.advanced_link_number_n261,
            ),
            ind.carrier_num,
            ind.main_address,
            p,
        ),
        RxPduView::AlDisc(p) => disc_replies(
            st,
            AlLinkKey::of(
                ind.main_address,
                ind.link_id,
                ind.endpoint_id,
                p.advanced_link_number_n261,
            ),
            ind.carrier_num,
            ind.main_address,
            p,
        ),
        _ => Seq::empty(),
    }
}

/// The LLC after an indication from the MAC.
pub open spec fn after_tma_ind(st: LlcView, ind: TmaIndView) -> LlcView {
    match ind.pdu {
        None => st,
        Some(pdu) => if bl_header(pdu) is Some {
            after_bl_pdu(st, ind, pdu)
        } else {
            after_al_pdu(st, ind, pdu)
        },
    }
}

/// What an indication from the MAC sends.
pub open spec fn tma_ind_msgs(st: LlcView, ind: TmaIndView) -> Seq<SapMsgView> {
    match ind.pdu {
        None => Seq::empty(),
        Some(pdu) => if bl_header(pdu) is Some {
            bl_deliveries(ind, pdu)
        } else {
            al_pdu_msgs(st, ind, pdu)
        },
    }
}

/// The LLC after a primitive. One that has no business at its access point is ignored.
pub open spec fn after_prim(st: LlcView, m: SapMsgView) -> LlcView {
    match (m.sap, m.msg) {
        (Sap::TmaSap, SapInnerView::TmaUnitdataInd(ind)) => after_tma_ind(st, ind),
        (Sap::TlaSap, SapInnerView::TlaTlDataReqBl(p)) => after_tldata_req(st, p),
        (Sap::TlaSap, SapInnerView::TlaTlUnitdataReqBl(p)) => after_tlunitdata_req(st, p),
        (Sap::TlaSap, SapInnerView::TlaTlDataReqAl(p)) => after_enqueue(
            st,
            req_key(p),
            p.tl_sdu,
            p.segments,
        ),
        (Sap::TlaSap, SapInnerView::TlaTlUnitdataReqAl(p)) => after_tlunitdata_req_al(st, p),
        _ => st,
    }
}

/// What a primitive sends at once.
pub open spec fn prim_msgs(st: LlcView, m: SapMsgView) -> Seq<SapMsgView> {
    match (m.sap, m.msg) {
        (Sap::TmaSap, SapInnerView::TmaUnitdataInd(ind)) => tma_ind_msgs(st, ind),
        (Sap::TlaSap, SapInnerView::TlaTlDataReqAl(p)) => enqueue_msgs(
            st,
            req_key(p),
            p.tl_sdu,
            p.segments,
        ),
        (Sap::TlaSap, SapInnerView::TlaTlUnitdataReqAl(p)) => tlunitdata_req_al_msgs(st, p),
        _ => Seq::empty(),
    }
}

/// The LLC after the basic-link part of a tick.
pub open spec fn after_bl_tick(st: LlcView) -> LlcView {
    let retx = after_retransmissions(st);
    LlcView {
        outbound: after_submission(retx.outbound, retx.dltime),
        out_acks: Seq::empty(),
        udata: Seq::empty(),
        ..retx
    }
}

/// What the basic link sends in a tick: retransmissions, messages that are free to go,
/// acknowledgements, then messages that need no confirmation.
pub open spec fn bl_tick_msgs(st: LlcView) -> Seq<SapMsgView> {
    let retx = after_retransmissions(st);
    retransmission_msgs(st) + free_msgs(retx.outbound, retx.outbound.len()) + ack_msgs(st.out_acks)
        + st.udata
}

/// The outcome of [`Llc::tick_end`].
#[derive(Debug)]
pub struct TickEnd {
    /// The basic link sent something.
    pub had_activity: bool,
    /// What the advanced links leave to be done.
    pub al: AlActivity,
}

impl Llc {
    /// Notes on the basic link what the MAC reported.
    pub fn note_outbound_report(&mut self, id: ReporterId, state: TxState)
        requires
            old(self)@.wf(),
        ensures
            final(self)@ == (LlcView {
                outbound: outbound_reported(old(self)@.outbound, id, state),
                ..old(self)@
            }),
            final(self)@.wf(),
    {
        let ghost st = self@;
        let ghost s = st.outbound;
        let ghost done = outbound_reported(s, id, state);
        let n: usize = self.outbound_messages.len();
        let mut i: usize = 0;
        assert(self@.outbound =~= done.take(0) + s.skip(0));
        while i < n
            invariant
                i <= n,
                n == s.len(),
                s == st.outbound,
                done == outbound_reported(s, id, state),
                self.outbound_messages@.len() == n,
                self@ == (LlcView { outbound: done.take(i as int) + s.skip(i as int), ..st }),
            decreases n - i,
        {
            let ghost views = expected_views(self.outbound_messages@);
            proof {
                assert(views[i as int] == s[i as int]);
                assert(self.outbound_messages@[i as int]@ == s[i as int]);
            }
            if self.outbound_messages[i].t_submitted_to_umac.is_some()
                && self.outbound_messages[i].tx_reporter.id == id {
                self.outbound_messages[i].tx_reporter = TxReporter { id, state };
            }
            proof {
                assert(self.outbound_messages@[i as int]@ =~= done[i as int]);
                assert(expected_views(self.outbound_messages@) =~= views.update(
                    i as int,
                    done[i as int],
                ));
                assert(self@.outbound =~= done.take(i + 1) + s.skip(i + 1));
            }
            i = i + 1;
            assert(self@ =~= (LlcView { outbound: done.take(i as int) + s.skip(i as int), ..st }));
        }
        proof {
            let n252 = st.config.limits.n252_bl_max_retransmits;
            assert(self@.outbound =~= done);
            assert forall|a: int, b: int|
                0 <= a < b < done.len() && (#[trigger] done[a]).addr.ssi == (
                #[trigger] done[b]).addr.ssi implies done[b].t_submitted_to_umac is None by {
                assert(s[a].addr.ssi == s[b].addr.ssi);
            }
            assert forall|a: int| 0 <= a < done.len() implies expected_wf(
                #[trigger] done[a],
                n252,
            ) by {
                assert(expected_wf(s[a], n252));
            }
        }
    }

    /// Serves an advanced-link PDU; see [`after_al_pdu`] and [`al_pdu_msgs`].
    pub fn rx_tma_unitdata_ind_al(
        &mut self,
        queue: &mut MessageQueue,
        ind: &TmaUnitdataInd,
        pdu: RxPdu,
    )
        requires
            old(self)@.wf(),
        ensures
            final(self)@ == after_al_pdu(old(self)@, ind@, pdu@),
            final(self)@.wf(),
            final(queue)@ == old(queue)@ + al_pdu_msgs(old(self)@, ind@, pdu@),
    {
        let ghost q = queue@;
        assert(q + Seq::<SapMsgView>::empty() =~= q);
        match pdu {
            RxPdu::AlSetup(p) => {
                let key: AlLinkKey = AlLinkKey::from_prim(
                    ind.main_address,
                    ind.link_id,
                    ind.endpoint_id,
                    p.advanced_link_number_n261,
                );
                self.on_al_setup(queue, key, ind.carrier_num, ind.main_address, p);
            },
            RxPdu::AlData { ar, n_s, feed } => {
                if let Some(key) = self.find_al_link_for_data(
                    ind.main_address.ssi,
                    ind.link_id,
                    ind.endpoint_id,
                ) {
                    self.on_al_data(queue, key, ar, n_s, feed);
                }
            },
            RxPdu::AlUdata { n_s, unack_feed } => {
                if let Some(key) = self.find_al_link_for_data(
                    ind.main_address.ssi,
                    ind.link_id,
                    ind.endpoint_id,
                ) {
                    self.on_al_udata(queue, key, n_s, unack_feed);
                }
            },
            RxPdu::AlAck(p) => {
                if let Some(key) = self.find_al_link_for_data(
                    ind.main_address.ssi,
                    ind.link_id,
                    ind.endpoint_id,
                ) {
                    self.on_al_ack_rnr(key, p);
                }
            },
            RxPdu::AlReconnect(p) => {
                let key: AlLinkKey = AlLinkKey::from_prim(
                    ind.main_address,
                    ind.link_id,
                    ind.endpoint_id,
                    p.advanced_link_number_n261,
                );
                self.on_al_reconnect(queue, key, ind.carrier_num, ind.main_address, p);
            },
            RxPdu::AlDisc(p) => {
                let key: AlLinkKey = AlLinkKey::from_prim(
                    ind.main_address,
                    ind.link_id,
                    ind.endpoint_id,
                    p.advanced_link_number_n261,
                );
                self.on_al_disc(queue, key, ind.carrier_num, ind.main_address, p);
            },
            _ => {},
        }
    }

    /// Serves an indication from the MAC; see [`after_tma_ind`] and [`tma_ind_msgs`].
    pub fn rx_tma_unitdata_ind(&mut self, queue: &mut MessageQueue, ind: TmaUnitdataInd)
        requires
            old(self)@.wf(),
        ensures
            final(self)@ == after_tma_ind(old(self)@, ind@),
            final(self)@.wf(),
            final(queue)@ == old(queue)@ + tma_ind_msgs(old(self)@, ind@),
    {
        let ghost q = queue@;
        assert(q + Seq::<SapMsgView>::empty() =~= q);
        let mut ind: TmaUnitdataInd = ind;
        let pdu: RxPdu = match ind.pdu.take() {
            Some(p) => p,
            None => {
                return;
            },
        };
        let is_bl: bool = matches!(
            pdu,
            RxPdu::BlAdata { .. } | RxPdu::BlData { .. } | RxPdu::BlAck { .. } | RxPdu::BlUdata { .. }
        );
        if is_bl {
            self.rx_tma_unitdata_ind_bl(queue, &ind, pdu);
        } else {
            self.rx_tma_unitdata_ind_al(queue, &ind, pdu);
        }
    }

    /// Serves a primitive from the MAC.
    pub fn rx_tma_prim(&mut self, queue: &mut MessageQueue, msg: SapMsgInner)
        requires
            old(self)@.wf(),
        ensures
            final(self)@ == (match msg@ {
                SapInnerView::TmaUnitdataInd(ind) => after_tma_ind(old(self)@, ind),
                _ => old(self)@,
            }),
            final(self)@.wf(),
            final(queue)@ == old(queue)@ + (match msg@ {
                SapInnerView::TmaUnitdataInd(ind) => tma_ind_msgs(old(self)@, ind),
                _ => Seq::empty(),
            }),
    {
        let ghost q = queue@;
        assert(q + Seq::<SapMsgView>::empty() =~= q);
        match msg {
            SapMsgInner::TmaUnitdataInd(ind) => {
                self.rx_tma_unitdata_ind(queue, ind);
            },
            _ => {},
        }
    }

    /// Serves a primitive from the layer above.
    pub fn rx_tla_prim(&mut self, queue: &mut MessageQueue, msg: SapMsgInner)
        requires
            old(self)@.wf(),
        ensures
            final(self)@ == (match msg@ {
                SapInnerView::TlaTlDataReqBl(p) => after_tldata_req(old(self)@, p),
                SapInnerView::TlaTlUnitdataReqBl(p) => after_tlunitdata_req(old(self)@, p),
                SapInnerView::TlaTlDataReqAl(p) => after_enqueue(
                    old(self)@,
                    req_key(p),
                    p.tl_sdu,
                    p.segments,
                ),
                SapInnerView::TlaTlUnitdataReqAl(p) => after_tlunitdata_req_al(old(self)@, p),
                _ => old(self)@,
            }),
            final(self)@.wf(),
            final(queue)@ == old(queue)@ + (match msg@ {
                SapInnerView::TlaTlDataReqAl(p) => enqueue_msgs(
                    old(self)@,
                    req_key(p),
                    p.tl_sdu,
                    p.segments,
                ),
                SapInnerView::TlaTlUnitdataReqAl(p) => tlunitdata_req_al_msgs(old(self)@, p),
                _ => Seq::empty(),
            }),
    {
        let ghost q = queue@;
        assert(q + Seq::<SapMsgView>::empty() =~= q);
        match msg {
            SapMsgInner::TlaTlDataReqBl(p) => {
                self.rx_tla_tldata_req_bl(p);
            },
            SapMsgInner::TlaTlUnitdataReqBl(p) => {
                self.rx_tla_tlunitdata_req_bl(p);
            },
            SapMsgInner::TlaTlDataReqAl(p) => {
                self.rx_tla_tldata_req_al(queue, p);
            },
            SapMsgInner::TlaTlUnitdataReqAl(p) => {
                self.rx_tla_tlunitdata_req_al(queue, p);
            },
            _ => {},
        }
    }

    /// Serves a primitive; see [`after_prim`] and [`prim_msgs`].
    pub fn rx_prim(&mut self, queue: &mut MessageQueue, message: SapMsg)
        requires
            old(self)@.wf(),
        ensures
            final(self)@ == after_prim(old(self)@, message@),
            final(self)@.wf(),
            final(queue)@ == old(queue)@ + prim_msgs(old(self)@, message@),
    {
        let ghost q = queue@;
        assert(q + Seq::<SapMsgView>::empty() =~= q);
        match message.sap {
            Sap::TmaSap => {
                self.rx_tma_prim(queue, message.msg);
            },
            Sap::TlaSap => {
                self.rx_tla_prim(queue, message.msg);
            },
            _ => {},
        }
    }

    /// Begins a tick.
    pub fn tick_start(&mut self, ts: TdmaTime)
        requires
            old(self)@.wf(),
            ts.wf(),
        ensures
            final(self)@ == (LlcView { dltime: ts, ..old(self)@ }),
            final(self)@.wf(),
    {
        self.dltime = ts;
    }

    /// Ends a tick: the basic link sends what is due, and the advanced links run; see
    /// [`after_bl_tick`] and [`after_al_tick`].
    pub fn tick_end(&mut self, queue: &mut MessageQueue) -> (r: TickEnd)
        requires
            old(self)@.wf(),
        ensures
            final(self)@ == after_al_tick(after_bl_tick(old(self)@)),
            final(self)@.wf(),
            final(queue)@ == old(queue)@ + bl_tick_msgs(old(self)@),
            r.had_activity == (bl_tick_msgs(old(self)@).len() > 0),
            msg_views(r.al.msgs@) == tick_pass(
                after_bl_tick(old(self)@),
                old(self)@.links.len(),
            ).msgs,
            r.al.drops@ == tick_pass(after_bl_tick(old(self)@), old(self)@.links.len()).drops,
            pending_views(r.al.pending@) == flushed(
                tick_pass(after_bl_tick(old(self)@), old(self)@.links.len()).links,
                tick_pass(after_bl_tick(old(self)@), old(self)@.links.len()).links.len(),
            ),
    {
        let ghost st = self@;
        let ghost q = queue@;
        let retx: bool = self.submit_retransmissions_to_umac(queue);
        let free: bool = self.submit_free_messages_to_umac(queue);
        let acks: bool = self.submit_ack_replies_to_umac(queue);
        let udata: bool = self.submit_udata_msgs_to_umac(queue);
        assert(self@ =~= after_bl_tick(st));
        assert(queue@ =~= q + bl_tick_msgs(st));
        let al: AlActivity = self.submit_al_activity_to_umac();
        TickEnd { had_activity: retx || free || acks || udata, al }
    }
}

} // verus!
