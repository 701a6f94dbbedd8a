//! Properties of the LLC that span several of its operations.

use crate::al_events::AlDeliveryOutcome;
use crate::llc::al_link::{
    al_msg, block_delivers, first_of, is_first, lemma_first_of, lemma_without_wf, ring_capacity,
    window_after_block, without, AlLinkKey, AlLinkView, AlPhase, OutstandingView,
};
use crate::llc::al_rx::{
    ack_reply, after_ack_rnr, after_data, after_setup, data_msgs, disc_replies, is_duplicate,
    lemma_ring_push, reply_route, setup_case, setup_echo, setup_replies, SetupCase,
};
use crate::llc::al_tick::{
    after_t272, all_on_air, any_discarded, clocked, effective_max_retx, event_ns, link_tick,
    sdu_action, sent_sdu, tx_pass, SduAction, PEER_REQUESTED_RETX_CAP,
};
use crate::llc::al_tx::{
    after_enqueue, enqueue_msgs, enqueue_refusal, enqueue_result, n_s_after, window_full,
};
use crate::llc::basic_link::{
    after_submission, after_tldata_req, first_ack, is_first_ack, is_free, next_ns, too_long,
};
use crate::llc::config::LlcConfig;
use crate::llc::dispatch::after_bl_tick;
use crate::llc::entity::LlcView;
use crate::llc::link_table::{
    drop_link, find_link, has_key, lemma_drop_link, lemma_link_pos, lemma_put_link, link_pos,
};
use crate::llc::pdus::{
    AckBlockView, AlAckAlRnrKind, AlAckView, AlDisc, AlFeedView, AlSetup, SetupReport,
};
use crate::saps::{
    purge_msg, LlcPduView, SapInnerView, SapMsgView, SsiType, TetraAddress, TlaReqBlView, TxState,
};
use crate::tdma::{elapsed_spec, TdmaTime};
use vstd::prelude::*;

verus! {

/// The message hands a data segment to the MAC.
pub open spec fn is_segment_msg(m: SapMsgView) -> bool {
    m.msg matches SapInnerView::TmaUnitdataReq(req) && req.pdu is AlSegment
}

// ---- reception ---------------------------------------------------------------------------

/// A TL-SDU that was delivered is not delivered again: a repetition changes nothing,
/// nothing goes up, and it is confirmed exactly if it asks for that.
pub proof fn law_duplicate_is_only_confirmed(
    st: LlcView,
    key: AlLinkKey,
    ar: bool,
    n_s: u8,
    feed: AlFeedView,
)
    requires
        st.wf(),
        is_duplicate(find_link(st.links, key), n_s, st.config),
    ensures
        after_data(st, key, ar, n_s, feed) == st,
        data_msgs(st, key, ar, n_s, feed) == (if ar {
            seq![
                ack_reply(find_link(st.links, key)->0.route(), AckBlockView::entire(n_s)),
            ]
        } else {
            Seq::empty()
        }),
{
}

/// Once a TL-SDU is complete, every repetition of it counts as delivered.
pub proof fn law_completed_sdu_is_remembered(
    st: LlcView,
    key: AlLinkKey,
    ar: bool,
    n_s: u8,
    sdu: Seq<bool>,
)
    requires
        st.wf(),
        st.config.advanced_link.dedupe_completed_ns,
        find_link(st.links, key) matches Some(l) && l.is_open(),
    ensures
        is_duplicate(
            find_link(
                after_data(st, key, ar, n_s, AlFeedView::Complete { sdu }).links,
                key,
            ),
            n_s,
            st.config,
        ),
{
    let link = find_link(st.links, key);
    if !is_duplicate(link, n_s, st.config) {
        let i = link_pos(st.links, key)->0;
        assert(has_key(st.links, key, i));
        let l = link->0;
        assert(l.wf());
        lemma_ring_push(l.recently_delivered_ns, n_s, ring_capacity(l.tx_window));
        lemma_link_pos(st.links, key, i);
        let after = after_data(st, key, ar, n_s, AlFeedView::Complete { sdu });
        let changed = after.links[i];
        assert(after.links == st.links.update(i, changed));
        assert(crate::llc::link_table::keys_unique(after.links)) by {
            assert forall|a: int, b: int| 0 <= a < b < after.links.len() implies (
            #[trigger] after.links[a]).key != (#[trigger] after.links[b]).key by {
                assert(st.links[a].key != st.links[b].key);
            }
        }
        lemma_link_pos(after.links, key, i);
    }
}

/// A complete TL-SDU that was not delivered before goes up once and is confirmed.
pub proof fn law_complete_sdu_is_delivered_and_confirmed(
    st: LlcView,
    key: AlLinkKey,
    ar: bool,
    n_s: u8,
    sdu: Seq<bool>,
)
    requires
        st.wf(),
        find_link(st.links, key) matches Some(l) && l.is_open(),
        !is_duplicate(find_link(st.links, key), n_s, st.config),
    ensures
        data_msgs(st, key, ar, n_s, AlFeedView::Complete { sdu }).len() == 2,
        data_msgs(st, key, ar, n_s, AlFeedView::Complete { sdu })[0].msg matches
            SapInnerView::TlaTlDataIndAl(ind) && ind.tl_sdu == sdu,
        data_msgs(st, key, ar, n_s, AlFeedView::Complete { sdu })[1] == ack_reply(
            find_link(st.links, key)->0.route(),
            AckBlockView::entire(n_s),
        ),
{
}

// ---- set-up and disconnection ------------------------------------------------------------

/// An accepted proposal leaves an established link without transfer state.
pub proof fn law_accepted_link_starts_clean(
    st: LlcView,
    key: AlLinkKey,
    carrier: u16,
    addr: TetraAddress,
    pdu: AlSetup,
)
    requires
        st.wf(),
        setup_case(find_link(st.links, key), pdu, st.config) == SetupCase::Accept,
    ensures
        find_link(after_setup(st, key, carrier, addr, pdu).links, key) matches Some(l) && {
            &&& l.phase == AlPhase::Established
            &&& l.outstanding.len() == 0 && l.pending_sdus.len() == 0 && l.next_n_s == 0
            &&& l.reassemblers.len() == 0 && l.unack_started_at.len() == 0
            &&& l.recently_delivered_ns.len() == 0
        },
{
    let link = find_link(st.links, key);
    let accepted = crate::llc::al_rx::accepted_link(link, key, carrier, addr, pdu);
    if link is Some {
        let i = link_pos(st.links, key)->0;
        assert(has_key(st.links, key, i));
    }
    lemma_put_link(st.links, accepted);
}

/// The queue in the MAC is purged when a link is set up again, before the echo, and not
/// when it is set up for the first time.
pub proof fn law_purge_only_on_repeated_setup(
    st: LlcView,
    key: AlLinkKey,
    carrier: u16,
    addr: TetraAddress,
    pdu: AlSetup,
)
    requires
        st.wf(),
        setup_case(find_link(st.links, key), pdu, st.config) == SetupCase::Accept,
    ensures
        find_link(st.links, key) is Some ==> setup_replies(st, key, carrier, addr, pdu).len() == 2
            && setup_replies(st, key, carrier, addr, pdu)[0] == purge_msg(key.ssi),
        find_link(st.links, key) is None ==> setup_replies(st, key, carrier, addr, pdu).len() == 1,
        setup_replies(st, key, carrier, addr, pdu).last() == al_msg(
            reply_route(key, carrier, addr),
            LlcPduView::AlSetup(setup_echo(pdu, SetupReport::Success)),
            None,
        ),
{
}

/// The peer may repeat a proposal: it gets the same echo again, and the transmit side of
/// the link is left alone.
pub proof fn law_repeated_proposal_gets_same_echo(
    st: LlcView,
    key: AlLinkKey,
    carrier: u16,
    addr: TetraAddress,
    pdu: AlSetup,
)
    requires
        st.wf(),
        st.config.advanced_link.cache_setup_echo,
        pdu.setup_report != SetupReport::Reset,
        setup_case(find_link(st.links, key), pdu, st.config) == SetupCase::Accept,
    ensures
        ({
            let st1 = after_setup(st, key, carrier, addr, pdu);
            let l1 = find_link(st1.links, key);
            let st2 = after_setup(st1, key, carrier, addr, pdu);
            let l2 = find_link(st2.links, key);
            &&& l1 is Some && l2 is Some
            &&& setup_case(l1, pdu, st.config) == SetupCase::Repeat
            &&& setup_replies(st1, key, carrier, addr, pdu) == seq![
                al_msg(
                    reply_route(key, carrier, addr),
                    LlcPduView::AlSetup(setup_echo(pdu, SetupReport::Success)),
                    None,
                ),
            ]
            &&& l2->0.outstanding == l1->0.outstanding
            &&& l2->0.pending_sdus == l1->0.pending_sdus
            &&& l2->0.next_n_s == l1->0.next_n_s
            &&& l2->0.phase == l1->0.phase
            &&& l2->0.last_setup_echo == l1->0.last_setup_echo
        }),
{
    let link = find_link(st.links, key);
    let accepted = crate::llc::al_rx::accepted_link(link, key, carrier, addr, pdu);
    if link is Some {
        let i = link_pos(st.links, key)->0;
        assert(has_key(st.links, key, i));
    }
    lemma_put_link(st.links, accepted);
    let st1 = after_setup(st, key, carrier, addr, pdu);
    assert(find_link(st1.links, key) == Some(accepted));
    lemma_put_link(st1.links, accepted.reset_rx());
}

/// An AL-DISC ends the link; one for a link that is not known purges nothing.
pub proof fn law_disconnection_is_final(
    st: LlcView,
    key: AlLinkKey,
    carrier: u16,
    addr: TetraAddress,
    pdu: AlDisc,
)
    requires
        st.wf(),
    ensures
        find_link(drop_link(st.links, key), key) is None,
        ({
            let gone = LlcView { links: drop_link(st.links, key), ..st };
            let replies = disc_replies(gone, key, carrier, addr, pdu);
            replies.len() == 1 && replies[0].msg is TmaUnitdataReq
        }),
{
    lemma_drop_link(st.links, key);
}

// ---- flow control and retransmission -------------------------------------------------------

/// While the peer is not ready and T.272 runs, a link sends no data.
pub proof fn law_flow_controlled_link_sends_no_data(
    l: AlLinkView,
    now: TdmaTime,
    cfg: LlcConfig,
    id: u64,
)
    requires
        l.wf(),
        l.phase == AlPhase::FlowControlled,
        l.t_rnr_start matches Some(t) && !elapsed_spec(now, t, cfg.limits.t272_not_ready_for_rx),
    ensures
        link_tick(l, now, cfg, id).link.outstanding == l.outstanding,
        forall|i: int|
            0 <= i < link_tick(l, now, cfg, id).msgs.len() ==> !is_segment_msg(
                #[trigger] link_tick(l, now, cfg, id).msgs[i],
            ),
        link_tick(l, now, cfg, id).drops.len() == 0,
{
}

/// AL-RNR stops a link and the next AL-ACK lets it go on.
pub proof fn law_ack_ends_flow_control(
    st: LlcView,
    key: AlLinkKey,
    rnr: AlAckView,
    ack: AlAckView,
)
    requires
        st.wf(),
        find_link(st.links, key) matches Some(l) && l.is_open(),
        rnr.kind == AlAckAlRnrKind::Rnr,
        ack.kind == AlAckAlRnrKind::Ack,
    ensures
        find_link(after_ack_rnr(st, key, rnr).links, key) matches Some(l) && l.phase
            == AlPhase::FlowControlled,
        find_link(after_ack_rnr(after_ack_rnr(st, key, rnr), key, ack).links, key) matches Some(l)
            && l.phase == AlPhase::Established && l.t_rnr_start is None,
{
    let i = link_pos(st.links, key)->0;
    assert(has_key(st.links, key, i));
    let st1 = after_ack_rnr(st, key, rnr);
    assert(st1.links[i].key == key);
    assert(has_key(st1.links, key, i));
    assert(crate::llc::link_table::keys_unique(st1.links)) by {
        assert forall|a: int, b: int| 0 <= a < b < st1.links.len() implies (
        #[trigger] st1.links[a]).key != (#[trigger] st1.links[b]).key by {
            assert(st.links[a].key != st.links[b].key);
        }
    }
    lemma_link_pos(st1.links, key, i);
    let st2 = after_ack_rnr(st1, key, ack);
    assert(st2.links[i].key == key);
    assert(has_key(st2.links, key, i));
    assert(crate::llc::link_table::keys_unique(st2.links)) by {
        assert forall|a: int, b: int| 0 <= a < b < st2.links.len() implies (
        #[trigger] st2.links[a]).key != (#[trigger] st2.links[b]).key by {
            assert(st1.links[a].key != st1.links[b].key);
        }
    }
    lemma_link_pos(st2.links, key, i);
}

/// A TL-SDU is not judged before its last segment has been on the air: until then it is
/// neither sent again nor given up.
pub proof fn law_no_retransmission_before_tail_is_on_air(
    s: OutstandingView,
    max_retx: u8,
    now: TdmaTime,
    cfg: LlcConfig,
)
    requires
        s.wf(),
        s.sent_at is Some,
        !s.force_retx,
        s.last_segment_tx_at is None,
        !all_on_air(s),
        !any_discarded(s),
    ensures
        sdu_action(clocked(s, now), max_retx, now, cfg) == SduAction::Keep,
{
}

/// A pass over a window keeps the N(S) of each TL-SDU.
proof fn lemma_pass_keeps_n_s(l: AlLinkView, now: TdmaTime, cfg: LlcConfig, id: u64, n: nat)
    requires
        n <= l.outstanding.len(),
    ensures
        tx_pass(l, now, cfg, id, n).sdus.len() == n,
        forall|i: int|
            0 <= i < n ==> (#[trigger] tx_pass(l, now, cfg, id, n).sdus[i]).n_s
                == l.outstanding[i].n_s,
    decreases n,
{
    if n > 0 {
        lemma_pass_keeps_n_s(l, now, cfg, id, (n - 1) as nat);
    }
}

/// What is not dropped stays.
proof fn lemma_kept(s: Seq<OutstandingView>, dropped: Seq<u8>, i: int)
    requires
        0 <= i < s.len(),
        !dropped.contains(s[i].n_s),
    ensures
        without(s, dropped).contains(s[i]),
    decreases s.len(),
{
    reveal(Seq::filter);
    let head = s.drop_last();
    let f = without(s, dropped);
    if i < head.len() {
        lemma_kept(head, dropped, i);
        let k = choose|k: int|
            0 <= k < without(head, dropped).len() && without(head, dropped)[k] == s[i];
        assert(f[k] == s[i]);
    } else {
        assert(f.last() == s[i]);
    }
}

/// No TL-SDU is lost in silence: one that is outstanding before a tick is so after it, or
/// its loss is reported.
pub proof fn law_lost_sdu_is_reported(
    l: AlLinkView,
    now: TdmaTime,
    cfg: LlcConfig,
    id: u64,
    i: int,
)
    requires
        0 <= i < l.outstanding.len(),
    ensures
        ({
            let t = link_tick(l, now, cfg, id);
            ||| exists|k: int|
                0 <= k < t.link.outstanding.len() && (#[trigger] t.link.outstanding[k]).n_s
                    == l.outstanding[i].n_s
            ||| exists|k: int|
                0 <= k < t.drops.len() && (#[trigger] t.drops[k]).n_s == l.outstanding[i].n_s
        }),
{
    let t = link_tick(l, now, cfg, id);
    let a = after_t272(l, now, cfg);
    assert(a.outstanding == l.outstanding);
    let n_s = l.outstanding[i].n_s;
    if a.phase == AlPhase::Established {
        let pass = tx_pass(a, now, cfg, id, a.outstanding.len());
        lemma_pass_keeps_n_s(a, now, cfg, id, a.outstanding.len());
        let dropped = event_ns(pass.drops);
        if dropped.contains(n_s) {
            let k = choose|k: int| 0 <= k < dropped.len() && dropped[k] == n_s;
            assert(t.drops[k].n_s == n_s);
        } else {
            lemma_kept(pass.sdus, dropped, i);
            let k = choose|k: int|
                0 <= k < t.link.outstanding.len() && t.link.outstanding[k] == pass.sdus[i];
            assert(t.link.outstanding[k].n_s == n_s);
        }
    } else {
        assert(t.link.outstanding[i].n_s == n_s);
    }
}

/// A segment that the MAC dropped is sent again at once, whatever the budget of the
/// link, within the cap.
pub proof fn law_dropped_segment_is_sent_again(
    s: OutstandingView,
    max_retx: u8,
    now: TdmaTime,
    cfg: LlcConfig,
)
    requires
        s.wf(),
        s.last_segment_tx_at is None,
        any_discarded(s),
        s.retx_count < PEER_REQUESTED_RETX_CAP,
    ensures
        sdu_action(clocked(s, now), max_retx, now, cfg) == SduAction::Send,
{
    let i = choose|i: int|
        0 <= i < s.reporters.len() && !s.acked[i] && (#[trigger] s.reporters[i] matches Some(r)
            && r.state == TxState::Discarded);
    assert(!clocked(s, now).acked[i]);
}

/// No TL-SDU is retransmitted more often than its link allows or, at the request of the
/// peer, than the cap.
pub proof fn law_retransmissions_are_bounded(
    s: OutstandingView,
    l: AlLinkView,
    now: TdmaTime,
    cfg: LlcConfig,
    id: u64,
)
    requires
        s.wf(),
        s.retx_count <= effective_max_retx(l, cfg) || s.retx_count <= PEER_REQUESTED_RETX_CAP,
        sdu_action(s, effective_max_retx(l, cfg), now, cfg) == SduAction::Send,
    ensures
        sent_sdu(s, l.route(), now, id).retx_count <= effective_max_retx(l, cfg) || sent_sdu(
            s,
            l.route(),
            now,
            id,
        ).retx_count <= PEER_REQUESTED_RETX_CAP,
{
}

/// On a link that negotiated no retransmission, a TL-SDU whose acknowledgement does not
/// come in time is released as sent and not verified.
pub proof fn law_fire_and_forget(s: OutstandingView, l: AlLinkView, now: TdmaTime, cfg: LlcConfig)
    requires
        s.wf(),
        l.max_segment_retx == 0 || (l.max_sdu_retx == 0
            && !cfg.advanced_link.n273_zero_ack_uses_seg_cap),
        s.sent_at is Some,
        !s.force_retx,
        s.has_unacked(),
        s.last_segment_tx_at matches Some(t) && elapsed_spec(now, t, cfg.limits.t252_ack_waiting),
    ensures
        sdu_action(s, effective_max_retx(l, cfg), now, cfg) == SduAction::Drop(
            AlDeliveryOutcome::DroppedFireAndForget,
        ),
{
}

/// The first transmission of a TL-SDU does not count as a retransmission.
pub proof fn law_first_transmission_is_free(
    s: OutstandingView,
    l: AlLinkView,
    now: TdmaTime,
    cfg: LlcConfig,
    id: u64,
)
    requires
        s.wf(),
        s.sent_at is None,
        !s.force_retx,
        s.has_unacked(),
    ensures
        sdu_action(s, effective_max_retx(l, cfg), now, cfg) == SduAction::Send,
        sent_sdu(s, l.route(), now, id).retx_count == s.retx_count,
{
}

/// After a block that confirms a TL-SDU in full, no TL-SDU of that N(S) is outstanding;
/// it is reported as delivered exactly if there was one.
pub proof fn law_full_confirmation_clears_window(s: Seq<OutstandingView>, n_r: u8)
    requires
        forall|i: int| 0 <= i < s.len() ==> (#[trigger] s[i]).wf(),
    ensures
        ({
            let after = window_after_block(s, AckBlockView::entire(n_r));
            forall|i: int| 0 <= i < after.len() ==> (#[trigger] after[i]).n_s != n_r
        }),
        block_delivers(s, AckBlockView::entire(n_r)) == Some(n_r) <==> exists|i: int|
            0 <= i < s.len() && (#[trigger] s[i]).n_s == n_r,
{
    lemma_without_wf(s, seq![n_r]);
    let after = window_after_block(s, AckBlockView::entire(n_r));
    assert forall|i: int| 0 <= i < after.len() implies (#[trigger] after[i]).n_s != n_r by {
        assert(seq![n_r][0] == n_r);
        assert(seq![n_r].contains(n_r));
        assert(!seq![n_r].contains(after[i].n_s));
    }
    if exists|i: int| 0 <= i < s.len() && (#[trigger] s[i]).n_s == n_r {
        let i = choose|i: int| 0 <= i < s.len() && (#[trigger] s[i]).n_s == n_r;
        lemma_first_exists(s, n_r, i);
    }
}

proof fn lemma_first_exists(s: Seq<OutstandingView>, n_s: u8, i: int)
    requires
        0 <= i < s.len(),
        s[i].n_s == n_s,
    ensures
        first_of(s, n_s) is Some,
    decreases i,
{
    if exists|j: int| 0 <= j < i && (#[trigger] s[j]).n_s == n_s {
        let j = choose|j: int| 0 <= j < i && (#[trigger] s[j]).n_s == n_s;
        lemma_first_exists(s, n_s, j);
    } else {
        assert(is_first(s, n_s, i));
        lemma_first_of(s, n_s, i);
    }
}

/// A TL-SDU that is refused leaves no trace.
pub proof fn law_refused_sdu_leaves_no_trace(
    st: LlcView,
    key: AlLinkKey,
    sdu: Seq<u8>,
    segments: Result<Seq<Seq<bool>>, crate::llc::pdus::SegmentationError>,
)
    requires
        st.wf(),
        enqueue_result(st, key, sdu.len(), segments) is Err,
    ensures
        after_enqueue(st, key, sdu, segments) == st,
        enqueue_msgs(st, key, sdu, segments).len() == 0,
{
}

/// A TL-SDU never enters a full window: it joins the end of those that wait.
pub proof fn law_full_window_buffers(
    st: LlcView,
    key: AlLinkKey,
    sdu: Seq<u8>,
    segments: Result<Seq<Seq<bool>>, crate::llc::pdus::SegmentationError>,
)
    requires
        st.wf(),
        enqueue_refusal(find_link(st.links, key), key, sdu.len()) is None,
        find_link(st.links, key) matches Some(l) && window_full(l),
    ensures
        enqueue_result(st, key, sdu.len(), segments) is Ok,
        enqueue_msgs(st, key, sdu, segments).len() == 0,
        find_link(after_enqueue(st, key, sdu, segments).links, key) == Some(
            AlLinkView {
                pending_sdus: find_link(st.links, key)->0.pending_sdus.push(sdu),
                ..find_link(st.links, key)->0
            },
        ),
{
    let i = link_pos(st.links, key)->0;
    assert(has_key(st.links, key, i));
    let l = find_link(st.links, key)->0;
    assert(st.links[i].wf());
    lemma_put_link(st.links, AlLinkView { pending_sdus: l.pending_sdus.push(sdu), ..l });
}

/// On every link the next N(S) lies in the range of the window, and the numbers run through
/// that range one after the other: after the last comes zero.
pub proof fn law_n_s_in_window(st: LlcView, i: int)
    requires
        st.wf(),
        0 <= i < st.links.len(),
    ensures
        st.links[i].next_n_s <= st.links[i].tx_window,
        n_s_after(st.links[i].next_n_s, st.links[i].tx_window) == (if st.links[i].next_n_s
            == st.links[i].tx_window {
            0int
        } else {
            st.links[i].next_n_s + 1
        }),
{
    let l = st.links[i];
    assert(l.wf());
    if l.next_n_s < l.tx_window {
        vstd::arithmetic::div_mod::lemma_small_mod((l.next_n_s + 1) as nat, 256);
        vstd::arithmetic::div_mod::lemma_small_mod(
            (l.next_n_s + 1) as nat,
            (l.tx_window + 1) as nat,
        );
    } else if l.tx_window < 255 {
        vstd::arithmetic::div_mod::lemma_small_mod((l.next_n_s + 1) as nat, 256);
        vstd::arithmetic::div_mod::lemma_mod_self_0(l.tx_window + 1);
    }
}

// ---- basic link ------------------------------------------------------------------------------

/// At most one message to a subscriber is in flight.
pub proof fn law_one_message_in_flight(st: LlcView, i: int, j: int)
    requires
        st.wf(),
        0 <= i < st.outbound.len(),
        0 <= j < st.outbound.len(),
        st.outbound[i].addr.ssi == st.outbound[j].addr.ssi,
        st.outbound[i].t_submitted_to_umac is Some,
        st.outbound[j].t_submitted_to_umac is Some,
    ensures
        i == j,
{
}

/// Two acknowledged messages to the same subscriber, one after the other, carry different
/// sequence numbers.
pub proof fn law_sequence_numbers_alternate(st: LlcView, p: TlaReqBlView, q: TlaReqBlView)
    requires
        st.wf(),
        p.main_address.ssi == q.main_address.ssi,
        p.main_address.ssi_type == SsiType::Issi,
        q.main_address.ssi_type == SsiType::Issi,
        !p.params.stealing_permission,
        !q.params.stealing_permission,
        !too_long(p, st),
        !too_long(q, st),
    ensures
        ({
            let st1 = after_tldata_req(st, p);
            let st2 = after_tldata_req(st1, q);
            let n = st.outbound.len() as int;
            &&& st2.outbound.len() == n + 2
            &&& st2.outbound[n].ns != st2.outbound[n + 1].ns
        }),
{
    let ssi = p.main_address.ssi;
    assert(next_ns(st.send_seq, ssi) <= 1);
}

/// An acknowledgement that travels on a data message is not sent on its own as well.
pub proof fn law_piggybacked_ack_is_used_up(st: LlcView, p: TlaReqBlView, carrier: u16)
    requires
        st.wf(),
        carrier == crate::llc::basic_link::preferred_carrier(p.params, st.config.main_carrier),
        p.main_address.ssi_type == SsiType::Issi,
        !too_long(p, st),
        first_ack(st.out_acks, p.main_address.ssi, carrier) is Some,
    ensures
        after_tldata_req(st, p).out_acks.len() == st.out_acks.len() - 1,
{
    let i = first_ack(st.out_acks, p.main_address.ssi, carrier)->0;
    assert(is_first_ack(st.out_acks, p.main_address.ssi, carrier, i));
}

/// A tick sends every acknowledgement that is owed and every message that needs none.
pub proof fn law_tick_drains_unconfirmed_traffic(st: LlcView)
    requires
        st.wf(),
    ensures
        after_bl_tick(st).out_acks.len() == 0,
        after_bl_tick(st).udata.len() == 0,
{
}

/// After a tick the oldest message to every subscriber has been handed down.
pub proof fn law_oldest_message_is_in_flight_after_tick(st: LlcView, i: int)
    requires
        st.wf(),
        0 <= i < after_bl_tick(st).outbound.len(),
        forall|j: int|
            0 <= j < i ==> (#[trigger] after_bl_tick(st).outbound[j]).addr.ssi != after_bl_tick(
                st,
            ).outbound[i].addr.ssi,
    ensures
        after_bl_tick(st).outbound[i].t_submitted_to_umac is Some,
{
    let s = crate::llc::basic_link::after_retransmissions(st).outbound;
    let r = after_bl_tick(st).outbound;
    assert(r == after_submission(s, st.dltime));
    assert forall|j: int| 0 <= j < i implies (#[trigger] s[j]).addr.ssi != s[i].addr.ssi by {
        assert(r[j].addr.ssi == s[j].addr.ssi);
    }
    if s[i].t_submitted_to_umac is None {
        assert(is_free(s, i));
    }
}

} // verus!
