//! The LLC entity: its state and what always holds of it.

use crate::al_events::{AlDeliveryEvent, AlDeliveryHook};
use crate::llc::al_link::AlLinkView;
use crate::llc::al_tick::next_id;
use crate::llc::config::LlcConfig;
use crate::llc::link_table::{links_wf, AlLinkTable};
use crate::sec_llc::CfgAdvancedLink;
use crate::saps::{
    msg_views, Layer2Service, SapMsg, SapMsgView, TetraAddress, TmaReqView, TmaUnitdataReq,
    TxReporter, TxState,
};
use crate::tdma::TdmaTime;
use std::collections::HashMap;
use vstd::prelude::*;

verus! {

/// An acknowledged basic-link message that waits to be sent or confirmed.
#[derive(Debug)]
pub struct ExpectedInAck {
    pub carrier_num: u16,
    pub ts: u8,
    pub addr: TetraAddress,
    /// N(S) of the message.
    pub ns: u8,
    pub bl_type: Layer2Service,
    /// When the message came from the layer above.
    pub t_first: TdmaTime,
    /// When it was last handed to the MAC. It waits while an earlier message to the
    /// same subscriber is not confirmed.
    pub t_submitted_to_umac: Option<TdmaTime>,
    /// When the MAC was seen to have sent or dropped it.
    pub t_umac_done: Option<TdmaTime>,
    pub tx_reporter: TxReporter,
    /// The message, to be sent once more if no confirmation comes.
    pub retransmission_buf: TmaUnitdataReq,
    pub retransmit_count: u8,
}

/// What an [`ExpectedInAck`] holds.
#[verifier::ext_equal]
pub struct ExpectedView {
    pub carrier_num: u16,
    pub ts: u8,
    pub addr: TetraAddress,
    pub ns: u8,
    pub bl_type: Layer2Service,
    pub t_first: TdmaTime,
    pub t_submitted_to_umac: Option<TdmaTime>,
    pub t_umac_done: Option<TdmaTime>,
    pub tx_reporter: TxReporter,
    pub retransmission_buf: TmaReqView,
    pub retransmit_count: u8,
}

impl View for ExpectedInAck {
    type V = ExpectedView;

    open spec fn view(&self) -> ExpectedView {
        ExpectedView {
            carrier_num: self.carrier_num,
            ts: self.ts,
            addr: self.addr,
            ns: self.ns,
            bl_type: self.bl_type,
            t_first: self.t_first,
            t_submitted_to_umac: self.t_submitted_to_umac,
            t_umac_done: self.t_umac_done,
            tx_reporter: self.tx_reporter,
            retransmission_buf: self.retransmission_buf@,
            retransmit_count: self.retransmit_count,
        }
    }
}

/// The messages of a list, each by what it holds.
pub open spec fn expected_views(s: Seq<ExpectedInAck>) -> Seq<ExpectedView> {
    Seq::new(s.len(), |i: int| s[i]@)
}

/// An acknowledgement that the basic link owes a subscriber.
#[derive(Debug, Clone, Copy, PartialEq, Eq, Structural)]
pub struct ScheduledOutAck {
    pub addr: TetraAddress,
    pub t_start: TdmaTime,
    /// N(R) to send.
    pub nr: u8,
    /// Carrier that the confirmed message came in on.
    pub carrier_num: u16,
    /// Timeslot that the confirmed message came in on.
    pub ts: u8,
}

/// Logical link control of the base station.
pub struct Llc {
    pub config: LlcConfig,
    pub dltime: TdmaTime,
    /// Acknowledgements to send, oldest first.
    pub scheduled_out_acks: Vec<ScheduledOutAck>,
    /// Acknowledged messages that wait to be sent or confirmed, oldest first.
    pub outbound_messages: Vec<ExpectedInAck>,
    /// Messages that need no confirmation, oldest first.
    pub outbound_udata_messages: Vec<SapMsg>,
    /// For each SSI the N(S) of its next message.
    pub link_send_seq: HashMap<u32, u8>,
    pub al_links: AlLinkTable,
    /// Bits of TL-SDU in each AL segment.
    pub al_segment_payload_bits: usize,
    pub delivery_hook: Option<AlDeliveryHook>,
    /// Number of the next reporter.
    pub next_reporter_id: u64,
    /// Reporters whose message was confirmed or lost, for the layers above.
    pub tx_outcomes: Vec<TxReporter>,
}

/// What an [`Llc`] holds.
#[verifier::ext_equal]
pub struct LlcView {
    pub config: LlcConfig,
    pub dltime: TdmaTime,
    pub out_acks: Seq<ScheduledOutAck>,
    pub outbound: Seq<ExpectedView>,
    pub udata: Seq<SapMsgView>,
    pub send_seq: Map<u32, u8>,
    pub links: Seq<AlLinkView>,
    pub al_segment_payload_bits: usize,
    pub deliveries: Option<Seq<AlDeliveryEvent>>,
    pub next_id: u64,
    pub tx_outcomes: Seq<TxReporter>,
}

impl View for Llc {
    type V = LlcView;

    open spec fn view(&self) -> LlcView {
        LlcView {
            config: self.config,
            dltime: self.dltime,
            out_acks: self.scheduled_out_acks@,
            outbound: expected_views(self.outbound_messages@),
            udata: msg_views(self.outbound_udata_messages@),
            send_seq: self.link_send_seq@,
            links: self.al_links@,
            al_segment_payload_bits: self.al_segment_payload_bits,
            deliveries: match self.delivery_hook {
                Some(h) => Some(h.events@),
                None => None,
            },
            next_id: self.next_reporter_id,
            tx_outcomes: self.tx_outcomes@,
        }
    }
}

/// What holds of every acknowledged message: it was accepted at a valid time, it was
/// not repeated too often, and one that was never handed down has no history.
pub open spec fn expected_wf(e: ExpectedView, n252: u8) -> bool {
    &&& e.t_first.wf()
    &&& e.retransmit_count <= n252
    &&& e.t_submitted_to_umac is None ==> e.t_umac_done is None && e.tx_reporter.state
        == TxState::Pending && e.retransmit_count == 0
}

/// Stop and wait: of the messages to one subscriber only the oldest may have been
/// handed down.
pub open spec fn stop_and_wait(s: Seq<ExpectedView>) -> bool {
    forall|i: int, j: int|
        0 <= i < j < s.len() && (#[trigger] s[i]).addr.ssi == (#[trigger] s[j]).addr.ssi
            ==> s[j].t_submitted_to_umac is None
}

/// Every acknowledged message is well formed and the link is stop and wait.
pub open spec fn outbound_wf(s: Seq<ExpectedView>, n252: u8) -> bool {
    &&& stop_and_wait(s)
    &&& forall|i: int| 0 <= i < s.len() ==> expected_wf(#[trigger] s[i], n252)
}

/// Send sequence numbers are single bits.
pub open spec fn send_seq_wf(m: Map<u32, u8>) -> bool {
    forall|ssi: u32| #[trigger] m.contains_key(ssi) ==> m[ssi] <= 1
}

impl LlcView {
    /// What holds of the LLC between two calls.
    pub open spec fn wf(self) -> bool {
        &&& self.dltime.wf()
        &&& outbound_wf(self.outbound, self.config.limits.n252_bl_max_retransmits)
        &&& send_seq_wf(self.send_seq)
        &&& links_wf(self.links)
    }

    /// The deliveries with `events` recorded, if a mailbox is installed.
    pub open spec fn with_events(self, events: Seq<AlDeliveryEvent>) -> LlcView {
        LlcView {
            deliveries: match self.deliveries {
                Some(d) => Some(d + events),
                None => None,
            },
            ..self
        }
    }
}

impl Llc {
    /// An LLC with no links and nothing to send.
    pub fn new(config: LlcConfig) -> (r: Llc)
        ensures
            r@ == (LlcView {
                config,
                dltime: TdmaTime { h: 0, m: 1, f: 1, t: 1 },
                out_acks: Seq::empty(),
                outbound: Seq::empty(),
                udata: Seq::empty(),
                send_seq: Map::empty(),
                links: Seq::empty(),
                al_segment_payload_bits: (config.advanced_link.segment_payload_octets
                    * 8) as usize,
                deliveries: None,
                next_id: 0,
                tx_outcomes: Seq::empty(),
            }),
            r@.wf(),
    {
        let r = Llc {
            config,
            dltime: TdmaTime::default(),
            scheduled_out_acks: Vec::new(),
            outbound_messages: Vec::new(),
            outbound_udata_messages: Vec::new(),
            link_send_seq: HashMap::new(),
            al_links: AlLinkTable::new(),
            al_segment_payload_bits: config.advanced_link.segment_payload_octets as usize * 8,
            delivery_hook: None,
            next_reporter_id: 0,
            tx_outcomes: Vec::new(),
        };
        assert(r@.outbound =~= Seq::<ExpectedView>::empty());
        assert(r@.udata =~= Seq::<SapMsgView>::empty());
        r
    }

    /// Installs the mailbox for delivery outcomes in place of any other.
    pub fn set_delivery_hook(&mut self, hook: AlDeliveryHook)
        ensures
            final(self)@ == (LlcView { deliveries: Some(hook.events@), ..old(self)@ }),
    {
        self.delivery_hook = Some(hook);
    }

    /// Empties the mailbox for delivery outcomes.
    pub fn take_deliveries(&mut self) -> (r: Vec<AlDeliveryEvent>)
        ensures
            match old(self)@.deliveries {
                Some(d) => r@ == d && final(self)@ == (LlcView {
                    deliveries: Some(Seq::empty()),
                    ..old(self)@
                }),
                None => r@ == Seq::<AlDeliveryEvent>::empty() && final(self)@ == old(self)@,
            },
    {
        match self.delivery_hook.take() {
            Some(hook) => {
                self.delivery_hook = Some(AlDeliveryHook::new());
                hook.events
            },
            None => {
                let r: Vec<AlDeliveryEvent> = Vec::new();
                r
            },
        }
    }

    /// Records the outcome of a TL-SDU, if a mailbox is installed.
    pub fn emit_delivery(&mut self, event: AlDeliveryEvent)
        ensures
            final(self)@ == old(self)@.with_events(seq![event]),
    {
        if let Some(hook) = &mut self.delivery_hook {
            hook.events.push(event);
        }
        assert(self@ =~= old(self)@.with_events(seq![event]));
    }

    /// Records the outcomes of several TL-SDUs in order.
    pub fn emit_deliveries(&mut self, events: &Vec<AlDeliveryEvent>)
        ensures
            final(self)@ == old(self)@.with_events(events@),
    {
        let ghost s = self@;
        let mut i: usize = 0;
        assert(self@ =~= s.with_events(events@.take(0)));
        while i < events.len()
            invariant
                i <= events@.len(),
                self@ == s.with_events(events@.take(i as int)),
            decreases events@.len() - i,
        {
            self.emit_delivery(events[i]);
            i = i + 1;
            assert(self@ =~= s.with_events(events@.take(i as int)));
        }
        assert(events@.take(i as int) =~= events@);
    }

    /// Hands out the reporters whose message was confirmed or lost.
    pub fn take_tx_outcomes(&mut self) -> (r: Vec<TxReporter>)
        ensures
            r@ == old(self)@.tx_outcomes,
            final(self)@ == (LlcView { tx_outcomes: Seq::empty(), ..old(self)@ }),
    {
        let mut taken: Vec<TxReporter> = Vec::new();
        std::mem::swap(&mut taken, &mut self.tx_outcomes);
        assert(self@ =~= (LlcView { tx_outcomes: Seq::empty(), ..old(self)@ }));
        taken
    }

    /// Replaces the main carrier and the settings of the advanced link. What was
    /// negotiated on the links that are up stays.
    pub fn set_config(&mut self, main_carrier: u16, advanced_link: CfgAdvancedLink)
        requires
            old(self)@.wf(),
        ensures
            final(self)@ == (LlcView {
                config: LlcConfig { main_carrier, advanced_link, ..old(self)@.config },
                ..old(self)@
            }),
            final(self)@.wf(),
    {
        self.config = LlcConfig { main_carrier, advanced_link, limits: self.config.limits };
    }
}

} // verus!
