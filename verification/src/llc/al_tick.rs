//! What one tick does to an advanced link: retransmissions, the deferred
//! acknowledgement and the timers.

use crate::al_events::{AlDeliveryEvent, AlDeliveryOutcome};
use crate::llc::al_link::{
    al_msg, lemma_without_wf, make_al_raw_sap_msg, retain_not_in, sdu_views, without, AlLink,
    AlLinkView, AlPhase, LinkRoute, OutstandingSdu, OutstandingView, RxSlot, UnackSlot,
};
use crate::llc::config::LlcConfig;
use crate::llc::pdus::{
    AckBlockView, AcknowledgementBlock, AdvancedLinkService, AlAckAlRnr, AlAckAlRnrKind, AlAckView,
    AlDisc, AlDiscCause,
};
use crate::saps::{
    copy_bits, msg_views, LlcPdu, LlcPduView, ReporterId, SapMsg, SapMsgView, TxReporter, TxState,
};
use crate::tdma::{elapsed, elapsed_spec, TdmaTime};
use vstd::prelude::*;

verus! {

/// Most retransmissions that the peer may ask for by reporting a failed check
/// sequence.
pub const PEER_REQUESTED_RETX_CAP: u8 = 3;

/// The number after `id`; after the last one comes zero.
pub open spec fn id_after(id: u64) -> u64 {
    if id == u64::MAX {
        0u64
    } else {
        (id + 1) as u64
    }
}

/// See [`id_after`].
pub fn next_id(id: u64) -> (r: u64)
    ensures
        r == id_after(id),
{
    if id == u64::MAX {
        0
    } else {
        id + 1
    }
}

// ---- transmission of one TL-SDU ---------------------------------------------

/// The MAC dropped a segment that the peer has not confirmed.
pub open spec fn any_discarded(s: OutstandingView) -> bool {
    exists|i: int|
        0 <= i < s.reporters.len() && !s.acked[i] && (#[trigger] s.reporters[i] matches Some(r)
            && r.state == TxState::Discarded)
}

/// Every segment that the peer has not confirmed has been on the air.
pub open spec fn all_on_air(s: OutstandingView) -> bool {
    forall|i: int|
        0 <= i < s.reporters.len() && !s.acked[i] ==> (#[trigger] s.reporters[i] matches Some(r)
            && r.state == TxState::Transmitted)
}

/// The TL-SDU after a look at its reporters. The acknowledgement wait begins when
/// the last unconfirmed segment has been on the air; a dropped segment calls for an
/// immediate retransmission.
pub open spec fn clocked(s: OutstandingView, now: TdmaTime) -> OutstandingView {
    if s.last_segment_tx_at is Some {
        s
    } else if any_discarded(s) {
        OutstandingView { force_retx: true, ..s }
    } else if all_on_air(s) && s.reporters.len() > 0 {
        OutstandingView { last_segment_tx_at: Some(now), ..s }
    } else {
        s
    }
}

/// How often a TL-SDU of the link may be sent again without the peer asking for it:
/// not at all when N.274 is zero, else the smaller of N.273 and N.274. With the
/// setting `n273_zero_ack_uses_seg_cap`, N.273 = 0 does not bound an acknowledged
/// link.
pub open spec fn effective_max_retx(l: AlLinkView, cfg: LlcConfig) -> u8 {
    if l.max_segment_retx == 0 {
        0
    } else if l.max_sdu_retx == 0 && l.service == AdvancedLinkService::Ack
        && cfg.advanced_link.n273_zero_ack_uses_seg_cap {
        l.max_segment_retx
    } else if l.max_sdu_retx <= l.max_segment_retx {
        l.max_sdu_retx
    } else {
        l.max_segment_retx
    }
}

/// What a tick does with a TL-SDU.
#[derive(Debug, Clone, Copy, PartialEq, Eq, Structural)]
pub enum SduAction {
    Keep,
    Send,
    Drop(AlDeliveryOutcome),
}

/// The TL-SDU is due: never sent, asked for again, or unconfirmed for too long.
pub open spec fn is_due(s: OutstandingView, now: TdmaTime, cfg: LlcConfig) -> bool {
    ||| s.force_retx
    ||| s.sent_at is None
    ||| (s.last_segment_tx_at matches Some(t) && elapsed_spec(now, t, cfg.limits.t252_ack_waiting))
}

/// What is done with a TL-SDU whose reporters have been looked at. The first
/// transmission is always allowed; a retransmission on time counts against the
/// budget of the link, one that the peer asked for against its own cap.
pub open spec fn sdu_action(s: OutstandingView, max_retx: u8, now: TdmaTime, cfg: LlcConfig) -> SduAction {
    if !is_due(s, now, cfg) || !s.has_unacked() {
        SduAction::Keep
    } else if s.sent_at is Some && !s.force_retx && s.retx_count >= max_retx {
        if max_retx == 0 {
            SduAction::Drop(AlDeliveryOutcome::DroppedFireAndForget)
        } else {
            SduAction::Drop(AlDeliveryOutcome::DroppedRetxExhausted)
        }
    } else if s.force_retx && s.retx_count >= PEER_REQUESTED_RETX_CAP {
        SduAction::Drop(AlDeliveryOutcome::DroppedRetxExhausted)
    } else {
        SduAction::Send
    }
}

/// What sending the unconfirmed ones of the first segments of a TL-SDU makes.
#[verifier::ext_equal]
pub struct SentSegments {
    pub msgs: Seq<SapMsgView>,
    pub reporters: Seq<Option<TxReporter>>,
    pub next_id: u64,
}

/// Sends the unconfirmed ones of the first `n` segments in order, each under a
/// reporter of its own.
pub open spec fn send_segments(s: OutstandingView, route: LinkRoute, id: u64, n: nat) -> SentSegments
    decreases n,
{
    if n == 0 {
        SentSegments { msgs: Seq::empty(), reporters: s.reporters, next_id: id }
    } else {
        let before = send_segments(s, route, id, (n - 1) as nat);
        let k = n - 1;
        if s.acked[k] {
            before
        } else {
            let reporter = Some(TxReporter::pending(ReporterId::Llc(before.next_id)));
            SentSegments {
                msgs: before.msgs.push(al_msg(route, LlcPduView::AlSegment(s.pdus[k]), reporter)),
                reporters: before.reporters.update(k, reporter),
                next_id: id_after(before.next_id),
            }
        }
    }
}

/// The TL-SDU after it has been handed to the MAC at `now`. A first transmission
/// does not count as a retransmission.
pub open spec fn sent_sdu(s: OutstandingView, route: LinkRoute, now: TdmaTime, id: u64) -> OutstandingView {
    OutstandingView {
        force_retx: false,
        sent_at: Some(now),
        last_segment_tx_at: None,
        retx_count: if s.sent_at is None {
            s.retx_count
        } else {
            (s.retx_count + 1) as u8
        },
        reporters: send_segments(s, route, id, s.pdus.len()).reporters,
        ..s
    }
}

/// Sending keeps one reporter slot for each segment, and all of them filled.
pub proof fn lemma_send_segments_len(s: OutstandingView, route: LinkRoute, id: u64, n: nat)
    requires
        s.wf(),
        n <= s.pdus.len(),
    ensures
        send_segments(s, route, id, n).reporters.len() == s.reporters.len(),
        forall|i: int|
            0 <= i < s.reporters.len() ==> (#[trigger] send_segments(
                s,
                route,
                id,
                n,
            ).reporters[i]) is Some,
    decreases n,
{
    if n > 0 {
        lemma_send_segments_len(s, route, id, (n - 1) as nat);
    }
}

impl OutstandingSdu {
    /// See [`clocked`].
    pub fn update_clock(&mut self, now: TdmaTime)
        requires
            old(self)@.wf(),
        ensures
            final(self)@ == clocked(old(self)@, now),
            final(self)@.wf(),
    {
        if self.last_segment_tx_at.is_some() {
            return;
        }
        let n: usize = self.segment_reporters.len();
        let mut on_air: bool = true;
        let mut discarded: bool = false;
        let mut i: usize = 0;
        let ghost s = self@;
        while i < n
            invariant
                i <= n,
                s == self@,
                s.wf(),
                n == s.reporters.len(),
                discarded <==> exists|j: int|
                    0 <= j < i && !s.acked[j] && (#[trigger] s.reporters[j] matches Some(r)
                        && r.state == TxState::Discarded),
                !discarded ==> (on_air <==> forall|j: int|
                    0 <= j < i && !s.acked[j] ==> (#[trigger] s.reporters[j] matches Some(r)
                        && r.state == TxState::Transmitted)),
            decreases n - i,
        {
            if !self.acked_segments[i] {
                match self.segment_reporters[i] {
                    Some(rep) => {
                        if rep.is_discarded() {
                            discarded = true;
                            assert(s.reporters[i as int] matches Some(r) && r.state
                                == TxState::Discarded);
                        } else if !rep.is_transmitted() {
                            on_air = false;
                            assert(!(s.reporters[i as int] matches Some(r) && r.state
                                == TxState::Transmitted));
                        }
                    },
                    None => {
                        on_air = false;
                        assert(s.reporters[i as int] is None);
                    },
                }
            }
            i = i + 1;
        }
        if discarded {
            assert(any_discarded(s));
            self.force_retx = true;
        } else if on_air && n > 0 {
            self.last_segment_tx_at = Some(now);
        }
    }

    /// True when a segment is not confirmed.
    pub fn has_unacked(&self) -> (r: bool)
        ensures
            r == self@.has_unacked(),
    {
        let mut i: usize = 0;
        while i < self.acked_segments.len()
            invariant
                i <= self.acked_segments@.len(),
                forall|j: int| 0 <= j < i ==> #[trigger] self.acked_segments@[j],
            decreases self.acked_segments@.len() - i,
        {
            if !self.acked_segments[i] {
                assert(!self@.acked[i as int]);
                return true;
            }
            i = i + 1;
        }
        false
    }

    /// See [`sdu_action`].
    pub fn action(&self, max_retx: u8, now: TdmaTime, cfg: &LlcConfig) -> (r: SduAction)
        ensures
            r == sdu_action(self@, max_retx, now, *cfg),
    {
        let due: bool = self.force_retx || self.sent_at.is_none() || match self.last_segment_tx_at {
            Some(t) => elapsed(now, t, cfg.limits.t252_ack_waiting),
            None => false,
        };
        if !due || !self.has_unacked() {
            SduAction::Keep
        } else if self.sent_at.is_some() && !self.force_retx && self.retx_count >= max_retx {
            if max_retx == 0 {
                SduAction::Drop(AlDeliveryOutcome::DroppedFireAndForget)
            } else {
                SduAction::Drop(AlDeliveryOutcome::DroppedRetxExhausted)
            }
        } else if self.force_retx && self.retx_count >= PEER_REQUESTED_RETX_CAP {
            SduAction::Drop(AlDeliveryOutcome::DroppedRetxExhausted)
        } else {
            SduAction::Send
        }
    }

    /// Hands the unconfirmed segments to the MAC, under reporters numbered from `id`
    /// on. Returns the number after the last one used.
    pub fn send(&mut self, route: LinkRoute, now: TdmaTime, id: u64, msgs: &mut Vec<SapMsg>) -> (r:
        u64)
        requires
            old(self)@.wf(),
            old(self).sent_at is None || old(self).retx_count < u8::MAX,
        ensures
            final(self)@ == sent_sdu(old(self)@, route, now, id),
            final(self)@.wf(),
            msg_views(final(msgs)@) == msg_views(old(msgs)@) + send_segments(
                old(self)@,
                route,
                id,
                old(self)@.pdus.len(),
            ).msgs,
            r == send_segments(old(self)@, route, id, old(self)@.pdus.len()).next_id,
    {
        let ghost s = self@;
        let ghost m0 = msg_views(msgs@);
        let n: usize = self.pdus.len();
        let mut id: u64 = id;
        let ghost id0 = id;
        let mut i: usize = 0;
        assert(msg_views(msgs@) =~= m0 + send_segments(s, route, id0, 0).msgs);
        while i < n
            invariant
                i <= n,
                n == s.pdus.len(),
                s.wf(),
                self@.wf(),
                self@ == (OutstandingView {
                    reporters: send_segments(s, route, id0, i as nat).reporters,
                    ..s
                }),
                msg_views(msgs@) == m0 + send_segments(s, route, id0, i as nat).msgs,
                id == send_segments(s, route, id0, i as nat).next_id,
            decreases n - i,
        {
            if !self.acked_segments[i] {
                let reporter: TxReporter = TxReporter::new(ReporterId::Llc(id));
                let bits: Vec<bool> = copy_bits(&self.pdus[i]);
                let msg: SapMsg = make_al_raw_sap_msg(
                    route,
                    LlcPdu::AlSegment(bits),
                    Some(reporter),
                );
                let ghost msgs_before = msgs@;
                msgs.push(msg);
                self.segment_reporters.set(i, Some(reporter));
                id = next_id(id);
                proof {
                    assert(msg_views(msgs@) =~= msg_views(msgs_before).push(msg@));
                    assert(bits@ == s.pdus[i as int]);
                    assert(msg_views(msgs@) =~= m0 + send_segments(
                        s,
                        route,
                        id0,
                        (i + 1) as nat,
                    ).msgs);
                    lemma_send_segments_len(s, route, id0, (i + 1) as nat);
                }
            }
            i = i + 1;
            assert(self@ =~= (OutstandingView {
                reporters: send_segments(s, route, id0, i as nat).reporters,
                ..s
            }));
        }
        if self.sent_at.is_some() {
            self.retx_count = self.retx_count + 1;
        }
        self.force_retx = false;
        self.sent_at = Some(now);
        self.last_segment_tx_at = None;
        assert(self@ =~= sent_sdu(s, route, now, id0));
        id
    }
}

// ---- the transmit window of one link -----------------------------------------

/// What a tick makes of the first TL-SDUs of a window.
#[verifier::ext_equal]
pub struct TxPass {
    pub sdus: Seq<OutstandingView>,
    pub msgs: Seq<SapMsgView>,
    pub drops: Seq<AlDeliveryEvent>,
    pub next_id: u64,
}

/// One tick over the first `n` TL-SDUs of the window, oldest first.
pub open spec fn tx_pass(l: AlLinkView, now: TdmaTime, cfg: LlcConfig, id: u64, n: nat) -> TxPass
    decreases n,
{
    if n == 0 {
        TxPass { sdus: Seq::empty(), msgs: Seq::empty(), drops: Seq::empty(), next_id: id }
    } else {
        let before = tx_pass(l, now, cfg, id, (n - 1) as nat);
        let s = clocked(l.outstanding[n - 1], now);
        match sdu_action(s, effective_max_retx(l, cfg), now, cfg) {
            SduAction::Keep => TxPass { sdus: before.sdus.push(s), ..before },
            SduAction::Drop(outcome) => TxPass {
                sdus: before.sdus.push(s),
                drops: before.drops.push(l.key.event(s.n_s, outcome)),
                ..before
            },
            SduAction::Send => TxPass {
                sdus: before.sdus.push(sent_sdu(s, l.route(), now, before.next_id)),
                msgs: before.msgs + send_segments(
                    s,
                    l.route(),
                    before.next_id,
                    s.pdus.len(),
                ).msgs,
                next_id: send_segments(s, l.route(), before.next_id, s.pdus.len()).next_id,
                ..before
            },
        }
    }
}

/// The N(S) of a list of events.
pub open spec fn event_ns(events: Seq<AlDeliveryEvent>) -> Seq<u8> {
    Seq::new(events.len(), |i: int| events[i].n_s)
}

/// What a tick makes of a link.
#[verifier::ext_equal]
pub struct LinkTick {
    pub link: AlLinkView,
    pub msgs: Seq<SapMsgView>,
    pub drops: Seq<AlDeliveryEvent>,
    pub next_id: u64,
}

/// Transmissions of one tick. Only an established link sends; the TL-SDUs that are
/// given up leave the window.
pub open spec fn transmit(l: AlLinkView, now: TdmaTime, cfg: LlcConfig, id: u64) -> LinkTick {
    if l.phase == AlPhase::Established {
        let pass = tx_pass(l, now, cfg, id, l.outstanding.len());
        LinkTick {
            link: AlLinkView { outstanding: without(pass.sdus, event_ns(pass.drops)), ..l },
            msgs: pass.msgs,
            drops: pass.drops,
            next_id: pass.next_id,
        }
    } else {
        LinkTick { link: l, msgs: Seq::empty(), drops: Seq::empty(), next_id: id }
    }
}

/// A pass keeps the number of TL-SDUs and their shape.
pub proof fn lemma_tx_pass_wf(l: AlLinkView, now: TdmaTime, cfg: LlcConfig, id: u64, n: nat)
    requires
        l.wf(),
        n <= l.outstanding.len(),
    ensures
        tx_pass(l, now, cfg, id, n).sdus.len() == n,
        forall|i: int| 0 <= i < n ==> (#[trigger] tx_pass(l, now, cfg, id, n).sdus[i]).wf(),
    decreases n,
{
    if n > 0 {
        let before = tx_pass(l, now, cfg, id, (n - 1) as nat);
        lemma_tx_pass_wf(l, now, cfg, id, (n - 1) as nat);
        assert(l.outstanding[n - 1].wf());
        let s = clocked(l.outstanding[n - 1], now);
        lemma_send_segments_len(s, l.route(), before.next_id, s.pdus.len());
    }
}

// ---- the deferred acknowledgement ---------------------------------------------

/// One cumulative block for each TL-SDU under reassembly.
pub open spec fn ack_blocks(slots: Seq<RxSlot>) -> Seq<AckBlockView> {
    Seq::new(
        slots.len(),
        |i: int| AckBlockView::cumulative(slots[i].n_s, slots[i].next_expected_ss),
    )
}

/// The acknowledgement that a link owes at the end of a tick.
pub open spec fn deferred_ack(l: AlLinkView) -> Seq<SapMsgView> {
    if l.needs_deferred_ack && l.reassemblers.len() > 0 {
        seq![
            al_msg(
                l.route(),
                LlcPduView::AlAck(
                    AlAckView { kind: AlAckAlRnrKind::Ack, blocks: ack_blocks(l.reassemblers) },
                ),
                None,
            ),
        ]
    } else {
        Seq::empty()
    }
}

// ---- timers --------------------------------------------------------------------

/// The flow control of the peer ends when T.272 runs out.
pub open spec fn after_t272(l: AlLinkView, now: TdmaTime, cfg: LlcConfig) -> AlLinkView {
    if l.phase == AlPhase::FlowControlled && (l.t_rnr_start matches Some(t) && elapsed_spec(
        now,
        t,
        cfg.limits.t272_not_ready_for_rx,
    )) {
        AlLinkView { phase: AlPhase::Established, t_rnr_start: None, ..l }
    } else {
        l
    }
}

/// The unacknowledged TL-SDUs whose T.271 still runs.
pub open spec fn after_t271(slots: Seq<UnackSlot>, now: TdmaTime, cfg: LlcConfig) -> Seq<UnackSlot> {
    slots.filter(
        |u: UnackSlot| !elapsed_spec(now, u.started_at, cfg.limits.t271_not_ready_for_tx),
    )
}

/// The timer of the procedure that the link is in has run out.
pub open spec fn procedure_due(l: AlLinkView, now: TdmaTime, cfg: LlcConfig) -> bool {
    match l.phase {
        AlPhase::SetupPending => l.t_setup_start matches Some(t) && elapsed_spec(
            now,
            t,
            cfg.limits.t261_setup_waiting,
        ),
        AlPhase::DisconnectPending => l.t_disc_start matches Some(t) && elapsed_spec(
            now,
            t,
            cfg.limits.t263_disconnect_waiting,
        ),
        AlPhase::ReconnectPending => l.t_reconnect_start matches Some(t) && elapsed_spec(
            now,
            t,
            cfg.limits.t265_reconnect_waiting,
        ),
        _ => false,
    }
}

/// The procedure that the link is in may be tried once more.
pub open spec fn may_retry(l: AlLinkView, cfg: LlcConfig) -> bool {
    match l.phase {
        AlPhase::SetupPending => l.setup_retries < cfg.advanced_link.max_setup_retries,
        AlPhase::DisconnectPending => l.disc_retries < cfg.advanced_link.max_disc_retries,
        AlPhase::ReconnectPending => l.reconnect_retries < cfg.advanced_link.max_reconnect_retries,
        _ => false,
    }
}

/// The link after a look at the timer of its procedure: a retry is counted and the
/// timer starts again; with no retry left a set-up or reconnection falls back to
/// idle.
pub open spec fn after_procedure(l: AlLinkView, now: TdmaTime, cfg: LlcConfig) -> AlLinkView {
    if !procedure_due(l, now, cfg) {
        l
    } else if may_retry(l, cfg) {
        match l.phase {
            AlPhase::SetupPending => AlLinkView {
                setup_retries: (l.setup_retries + 1) as u8,
                t_setup_start: Some(now),
                ..l
            },
            AlPhase::DisconnectPending => AlLinkView {
                disc_retries: (l.disc_retries + 1) as u8,
                t_disc_start: Some(now),
                ..l
            },
            _ => AlLinkView {
                reconnect_retries: (l.reconnect_retries + 1) as u8,
                t_reconnect_start: Some(now),
                ..l
            },
        }
    } else if l.phase == AlPhase::DisconnectPending {
        l
    } else {
        AlLinkView {
            phase: AlPhase::Idle,
            t_setup_start: None,
            t_reconnect_start: None,
            last_setup_echo: None,
            ..l
        }
    }
}

/// The PDU that a retry repeats.
pub open spec fn procedure_msgs(l: AlLinkView, now: TdmaTime, cfg: LlcConfig) -> Seq<SapMsgView> {
    if procedure_due(l, now, cfg) && may_retry(l, cfg) {
        match l.phase {
            AlPhase::SetupPending => match l.pending_setup_pdu {
                Some(p) => seq![al_msg(l.route(), LlcPduView::AlSetup(p), None)],
                None => Seq::empty(),
            },
            AlPhase::DisconnectPending => seq![
                al_msg(
                    l.route(),
                    LlcPduView::AlDisc(
                        AlDisc {
                            advanced_link_service: l.service,
                            advanced_link_number_n261: l.key.n261,
                            report: AlDiscCause::Success,
                        },
                    ),
                    None,
                ),
            ],
            _ => match l.pending_reconnect_pdu {
                Some(p) => seq![al_msg(l.route(), LlcPduView::AlReconnect(p), None)],
                None => Seq::empty(),
            },
        }
    } else {
        Seq::empty()
    }
}

/// The link is given up: its disconnection was repeated as often as allowed.
pub open spec fn procedure_removes(l: AlLinkView, now: TdmaTime, cfg: LlcConfig) -> bool {
    l.phase == AlPhase::DisconnectPending && procedure_due(l, now, cfg) && !may_retry(l, cfg)
}

// ---- the whole tick -------------------------------------------------------------

/// What one tick makes of a link: the end of flow control, the transmissions, the
/// deferred acknowledgement, the lifetime of unacknowledged TL-SDUs and the timer of
/// the current procedure, in this order.
pub open spec fn link_tick(l: AlLinkView, now: TdmaTime, cfg: LlcConfig, id: u64) -> LinkTick {
    let tx = transmit(after_t272(l, now, cfg), now, cfg, id);
    let rx = AlLinkView {
        needs_deferred_ack: false,
        unack_started_at: after_t271(tx.link.unack_started_at, now, cfg),
        ..tx.link
    };
    LinkTick {
        link: after_procedure(rx, now, cfg),
        msgs: tx.msgs + deferred_ack(tx.link) + procedure_msgs(rx, now, cfg),
        drops: tx.drops,
        next_id: tx.next_id,
    }
}

/// True when the tick gives the link up.
pub open spec fn link_tick_removes(l: AlLinkView, now: TdmaTime, cfg: LlcConfig) -> bool {
    procedure_removes(l, now, cfg)
}

/// A tick keeps a link well formed and its key.
pub proof fn lemma_link_tick_wf(l: AlLinkView, now: TdmaTime, cfg: LlcConfig, id: u64)
    requires
        l.wf(),
    ensures
        link_tick(l, now, cfg, id).link.wf(),
        link_tick(l, now, cfg, id).link.key == l.key,
{
    let l0 = after_t272(l, now, cfg);
    if l0.phase == AlPhase::Established {
        let n = l0.outstanding.len();
        let pass = tx_pass(l0, now, cfg, id, n);
        lemma_tx_pass_wf(l0, now, cfg, id, n);
        lemma_without_wf(pass.sdus, event_ns(pass.drops));
    }
    lemma_unack_filter_unique(l.unack_started_at, now, cfg);
}

/// Dropping unacknowledged TL-SDUs leaves each N(S) at most once.
proof fn lemma_unack_filter_unique(s: Seq<UnackSlot>, now: TdmaTime, cfg: LlcConfig)
    requires
        forall|i: int, j: int|
            0 <= i < j < s.len() ==> (#[trigger] s[i]).n_s != (#[trigger] s[j]).n_s,
    ensures
        forall|i: int, j: int|
            0 <= i < j < after_t271(s, now, cfg).len() ==> (
            #[trigger] after_t271(s, now, cfg)[i]).n_s != (
            #[trigger] after_t271(s, now, cfg)[j]).n_s,
        forall|i: int|
            0 <= i < after_t271(s, now, cfg).len() ==> s.contains(
                #[trigger] after_t271(s, now, cfg)[i],
            ),
    decreases s.len(),
{
    reveal(Seq::filter);
    if s.len() > 0 {
        let head = s.drop_last();
        lemma_unack_filter_unique(head, now, cfg);
        let f = after_t271(s, now, cfg);
        let g = after_t271(head, now, cfg);
        assert forall|i: int| 0 <= i < f.len() implies s.contains(#[trigger] f[i]) by {
            if i < g.len() {
                assert(f[i] == g[i]);
                assert(head.contains(g[i]));
                let k = choose|k: int| 0 <= k < head.len() && head[k] == g[i];
                assert(s[k] == f[i]);
            } else {
                assert(s[s.len() - 1] == f[i]);
            }
        }
        assert forall|i: int, j: int| 0 <= i < j < f.len() implies (#[trigger] f[i]).n_s != (
        #[trigger] f[j]).n_s by {
            if j < g.len() {
                assert(f[i] == g[i] && f[j] == g[j]);
            } else {
                assert(f[i] == g[i] && f[j] == s.last());
                assert(head.contains(g[i]));
                let k = choose|k: int| 0 <= k < head.len() && head[k] == g[i];
                assert(s[k].n_s != s[s.len() - 1].n_s);
            }
        }
    }
}

impl AlLink {
    /// See [`effective_max_retx`].
    pub fn effective_max_retx(&self, cfg: &LlcConfig) -> (r: u8)
        ensures
            r == effective_max_retx(self@, *cfg),
    {
        if self.max_segment_retx == 0 {
            0
        } else if self.max_sdu_retx == 0 && self.service == AdvancedLinkService::Ack
            && cfg.advanced_link.n273_zero_ack_uses_seg_cap {
            self.max_segment_retx
        } else if self.max_sdu_retx <= self.max_segment_retx {
            self.max_sdu_retx
        } else {
            self.max_segment_retx
        }
    }

    /// See [`transmit`].
    pub fn transmit(
        &mut self,
        now: TdmaTime,
        cfg: &LlcConfig,
        id: u64,
        msgs: &mut Vec<SapMsg>,
        drops: &mut Vec<AlDeliveryEvent>,
    ) -> (r: u64)
        requires
            old(self)@.wf(),
        ensures
            final(self)@ == transmit(old(self)@, now, *cfg, id).link,
            final(self)@.wf(),
            msg_views(final(msgs)@) == msg_views(old(msgs)@) + transmit(
                old(self)@,
                now,
                *cfg,
                id,
            ).msgs,
            final(drops)@ == old(drops)@ + transmit(old(self)@, now, *cfg, id).drops,
            r == transmit(old(self)@, now, *cfg, id).next_id,
    {
        let ghost m0 = msg_views(msgs@);
        if self.phase != AlPhase::Established {
            assert(m0 + Seq::<SapMsgView>::empty() =~= m0);
            assert(drops@ + Seq::<AlDeliveryEvent>::empty() =~= drops@);
            return id;
        }
        let ghost l = self@;
        let ghost d0 = drops@;
        let ghost id0 = id;
        let max_retx: u8 = self.effective_max_retx(cfg);
        let route: LinkRoute = self.route();
        let n: usize = self.outstanding_sdus.len();
        let mut dropped: Vec<u8> = Vec::new();
        let mut id: u64 = id;
        let mut i: usize = 0;
        proof {
            assert(m0 + tx_pass(l, now, *cfg, id0, 0).msgs =~= m0);
            assert(d0 + tx_pass(l, now, *cfg, id0, 0).drops =~= d0);
            assert(dropped@ =~= event_ns(tx_pass(l, now, *cfg, id0, 0).drops));
            assert(sdu_views(self.outstanding_sdus@) =~= tx_pass(l, now, *cfg, id0, 0).sdus
                + l.outstanding.skip(0));
        }
        while i < n
            invariant
                i <= n,
                n == l.outstanding.len(),
                n == self.outstanding_sdus@.len(),
                l.wf(),
                l.phase == AlPhase::Established,
                max_retx == effective_max_retx(l, *cfg),
                route == l.route(),
                self@ == (AlLinkView { outstanding: sdu_views(self.outstanding_sdus@), ..l }),
                sdu_views(self.outstanding_sdus@) == tx_pass(l, now, *cfg, id0, i as nat).sdus
                    + l.outstanding.skip(i as int),
                msg_views(msgs@) == m0 + tx_pass(l, now, *cfg, id0, i as nat).msgs,
                drops@ == d0 + tx_pass(l, now, *cfg, id0, i as nat).drops,
                dropped@ == event_ns(tx_pass(l, now, *cfg, id0, i as nat).drops),
                id == tx_pass(l, now, *cfg, id0, i as nat).next_id,
            decreases n - i,
        {
            let ghost before = tx_pass(l, now, *cfg, id0, i as nat);
            let ghost after = tx_pass(l, now, *cfg, id0, (i + 1) as nat);
            let ghost views = sdu_views(self.outstanding_sdus@);
            proof {
                lemma_tx_pass_wf(l, now, *cfg, id0, i as nat);
                assert(views[i as int] == l.outstanding[i as int]);
                assert(self.outstanding_sdus@[i as int]@ == views[i as int]);
                assert(l.outstanding[i as int].wf());
            }
            self.outstanding_sdus[i].update_clock(now);
            let ghost s = clocked(l.outstanding[i as int], now);
            assert(sdu_views(self.outstanding_sdus@) =~= views.update(i as int, s));
            match self.outstanding_sdus[i].action(max_retx, now, cfg) {
                SduAction::Keep => {},
                SduAction::Drop(outcome) => {
                    let n_s: u8 = self.outstanding_sdus[i].n_s;
                    let ghost drops_before = drops@;
                    drops.push(self.key.make_event(n_s, outcome));
                    dropped.push(n_s);
                    assert(drops@ =~= d0 + after.drops);
                    assert(dropped@ =~= event_ns(after.drops));
                },
                SduAction::Send => {
                    let ghost msgs_before = msg_views(msgs@);
                    id = self.outstanding_sdus[i].send(route, now, id, msgs);
                    assert(sdu_views(self.outstanding_sdus@) =~= views.update(
                        i as int,
                        sent_sdu(s, route, now, before.next_id),
                    ));
                    assert(msg_views(msgs@) =~= m0 + after.msgs);
                },
            }
            assert(sdu_views(self.outstanding_sdus@) =~= after.sdus + l.outstanding.skip(i + 1));
            i = i + 1;
            assert(self@ =~= (AlLinkView { outstanding: sdu_views(self.outstanding_sdus@), ..l }));
        }
        let ghost pass = tx_pass(l, now, *cfg, id0, n as nat);
        proof {
            lemma_tx_pass_wf(l, now, *cfg, id0, n as nat);
            lemma_without_wf(pass.sdus, event_ns(pass.drops));
            assert(sdu_views(self.outstanding_sdus@) =~= pass.sdus);
        }
        retain_not_in(&mut self.outstanding_sdus, &dropped);
        assert(self@ =~= transmit(l, now, *cfg, id0).link);
        id
    }

    /// Sends the acknowledgement that is due.
    pub fn flush_deferred_ack(&mut self, msgs: &mut Vec<SapMsg>)
        ensures
            final(self)@ == (AlLinkView { needs_deferred_ack: false, ..old(self)@ }),
            msg_views(final(msgs)@) == msg_views(old(msgs)@) + deferred_ack(old(self)@),
    {
        let ghost m0 = msg_views(msgs@);
        let ghost l = self@;
        let due: bool = self.needs_deferred_ack;
        self.needs_deferred_ack = false;
        assert(self@ =~= (AlLinkView { needs_deferred_ack: false, ..l }));
        let n: usize = self.reassemblers.len();
        if !due || n == 0 {
            assert(m0 + Seq::<SapMsgView>::empty() =~= m0);
            return;
        }
        let first: RxSlot = self.reassemblers[0];
        let mut other: Vec<AcknowledgementBlock> = Vec::new();
        let mut i: usize = 1;
        while i < n
            invariant
                1 <= i <= n,
                n == self.reassemblers@.len(),
                other@.len() == i - 1,
                forall|j: int|
                    0 <= j < i - 1 ==> (#[trigger] other@[j])@ == AckBlockView::cumulative(
                        self.reassemblers@[j + 1].n_s,
                        self.reassemblers@[j + 1].next_expected_ss,
                    ),
            decreases n - i,
        {
            let slot: RxSlot = self.reassemblers[i];
            other.push(AcknowledgementBlock::cumulative(slot.n_s, slot.next_expected_ss));
            i = i + 1;
        }
        let ack = AlAckAlRnr {
            kind: AlAckAlRnrKind::Ack,
            first_block: AcknowledgementBlock::cumulative(first.n_s, first.next_expected_ss),
            other_blocks: other,
        };
        assert(ack@.blocks =~= ack_blocks(l.reassemblers));
        let msg: SapMsg = make_al_raw_sap_msg(self.route(), LlcPdu::AlAck(ack), None);
        msgs.push(msg);
        assert(msg_views(msgs@) =~= m0 + deferred_ack(l));
    }

    /// Drops the unacknowledged TL-SDUs whose T.271 has run out.
    pub fn expire_unack(&mut self, now: TdmaTime, cfg: &LlcConfig)
        ensures
            final(self)@ == (AlLinkView {
                unack_started_at: after_t271(old(self)@.unack_started_at, now, *cfg),
                ..old(self)@
            }),
    {
        let ghost l = self@;
        let ghost s = self.unack_started_at@;
        let n: usize = self.unack_started_at.len();
        let mut kept: Vec<UnackSlot> = Vec::new();
        let mut i: usize = 0;
        proof {
            reveal(Seq::filter);
            assert(after_t271(s.take(0), now, *cfg) =~= Seq::<UnackSlot>::empty());
        }
        while i < n
            invariant
                i <= n,
                n == s.len(),
                s == self.unack_started_at@,
                kept@ == after_t271(s.take(i as int), now, *cfg),
            decreases n - i,
        {
            let slot: UnackSlot = self.unack_started_at[i];
            proof {
                reveal(Seq::filter);
                assert(s.take(i + 1).drop_last() =~= s.take(i as int));
            }
            if !elapsed(now, slot.started_at, cfg.limits.t271_not_ready_for_tx) {
                kept.push(slot);
            }
            i = i + 1;
        }
        assert(s.take(n as int) =~= s);
        self.unack_started_at = kept;
        assert(self@ =~= (AlLinkView { unack_started_at: after_t271(s, now, *cfg), ..l }));
    }

    /// Looks at the timer of the procedure that the link is in. Returns true when the
    /// link is to be given up.
    pub fn run_procedure_timer(
        &mut self,
        now: TdmaTime,
        cfg: &LlcConfig,
        msgs: &mut Vec<SapMsg>,
    ) -> (r: bool)
        ensures
            final(self)@ == after_procedure(old(self)@, now, *cfg),
            msg_views(final(msgs)@) == msg_views(old(msgs)@) + procedure_msgs(
                old(self)@,
                now,
                *cfg,
            ),
            r == procedure_removes(old(self)@, now, *cfg),
    {
        let ghost l = self@;
        let ghost m0 = msg_views(msgs@);
        assert(m0 + Seq::<SapMsgView>::empty() =~= m0);
        let route: LinkRoute = self.route();
        match self.phase {
            AlPhase::SetupPending => {
                let due: bool = match self.t_setup_start {
                    Some(t) => elapsed(now, t, cfg.limits.t261_setup_waiting),
                    None => false,
                };
                if !due {
                    return false;
                }
                if self.setup_retries < cfg.advanced_link.max_setup_retries {
                    self.setup_retries = self.setup_retries + 1;
                    self.t_setup_start = Some(now);
                    if let Some(p) = self.pending_setup_pdu {
                        msgs.push(make_al_raw_sap_msg(route, LlcPdu::AlSetup(p), None));
                        assert(msg_views(msgs@) =~= m0 + procedure_msgs(l, now, *cfg));
                    }
                } else {
                    self.phase = AlPhase::Idle;
                    self.t_setup_start = None;
                    self.t_reconnect_start = None;
                    self.last_setup_echo = None;
                }
                assert(self@ =~= after_procedure(l, now, *cfg));
                false
            },
            AlPhase::DisconnectPending => {
                let due: bool = match self.t_disc_start {
                    Some(t) => elapsed(now, t, cfg.limits.t263_disconnect_waiting),
                    None => false,
                };
                if !due {
                    return false;
                }
                if self.disc_retries < cfg.advanced_link.max_disc_retries {
                    self.disc_retries = self.disc_retries + 1;
                    self.t_disc_start = Some(now);
                    let disc = AlDisc {
                        advanced_link_service: self.service,
                        advanced_link_number_n261: self.key.n261,
                        report: AlDiscCause::Success,
                    };
                    msgs.push(make_al_raw_sap_msg(route, LlcPdu::AlDisc(disc), None));
                    assert(msg_views(msgs@) =~= m0 + procedure_msgs(l, now, *cfg));
                    assert(self@ =~= after_procedure(l, now, *cfg));
                    false
                } else {
                    true
                }
            },
            AlPhase::ReconnectPending => {
                let due: bool = match self.t_reconnect_start {
                    Some(t) => elapsed(now, t, cfg.limits.t265_reconnect_waiting),
                    None => false,
                };
                if !due {
                    return false;
                }
                if self.reconnect_retries < cfg.advanced_link.max_reconnect_retries {
                    self.reconnect_retries = self.reconnect_retries + 1;
                    self.t_reconnect_start = Some(now);
                    if let Some(p) = self.pending_reconnect_pdu {
                        msgs.push(make_al_raw_sap_msg(route, LlcPdu::AlReconnect(p), None));
                        assert(msg_views(msgs@) =~= m0 + procedure_msgs(l, now, *cfg));
                    }
                } else {
                    self.phase = AlPhase::Idle;
                    self.t_setup_start = None;
                    self.t_reconnect_start = None;
                    self.last_setup_echo = None;
                }
                assert(self@ =~= after_procedure(l, now, *cfg));
                false
            },
            _ => false,
        }
    }

    /// Runs one tick of the link; see [`link_tick`]. The messages and the TL-SDUs
    /// given up are appended. Returns the next reporter number and whether the link is
    /// to be given up.
    pub fn tick(
        &mut self,
        now: TdmaTime,
        cfg: &LlcConfig,
        id: u64,
        msgs: &mut Vec<SapMsg>,
        drops: &mut Vec<AlDeliveryEvent>,
    ) -> (r: (u64, bool))
        requires
            old(self)@.wf(),
        ensures
            final(self)@ == link_tick(old(self)@, now, *cfg, id).link,
            final(self)@.wf(),
            msg_views(final(msgs)@) == msg_views(old(msgs)@) + link_tick(
                old(self)@,
                now,
                *cfg,
                id,
            ).msgs,
            final(drops)@ == old(drops)@ + link_tick(old(self)@, now, *cfg, id).drops,
            r.0 == link_tick(old(self)@, now, *cfg, id).next_id,
            r.1 == link_tick_removes(old(self)@, now, *cfg),
    {
        let ghost l = self@;
        let ghost m0 = msg_views(msgs@);
        let ghost id0 = id;
        proof {
            lemma_link_tick_wf(l, now, *cfg, id);
        }
        if self.phase == AlPhase::FlowControlled {
            if let Some(t) = self.t_rnr_start {
                if elapsed(now, t, cfg.limits.t272_not_ready_for_rx) {
                    self.phase = AlPhase::Established;
                    self.t_rnr_start = None;
                }
            }
        }
        assert(self@ =~= after_t272(l, now, *cfg));
        let id: u64 = self.transmit(now, cfg, id, msgs, drops);
        self.flush_deferred_ack(msgs);
        self.expire_unack(now, cfg);
        let removed: bool = self.run_procedure_timer(now, cfg, msgs);
        assert(msg_views(msgs@) =~= m0 + link_tick(l, now, *cfg, id0).msgs);
        (id, removed)
    }
}

} // verus!
