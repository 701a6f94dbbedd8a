//! Properties of the advanced link over several steps: the echo of a set-up, what a whole
//! tick sends, and how often a TL-SDU is sent while the peer is silent.

use crate::al_events::{AlDeliveryEvent, AlDeliveryOutcome};
use crate::llc::al_link::{without, AlLinkKey, AlLinkView, AlPhase, OutstandingView};
use crate::llc::al_rx::{after_ack_rnr, setup_case, setup_supported, SetupCase};
use crate::llc::al_tick::{
    all_on_air, any_discarded, clocked, deferred_ack, effective_max_retx, event_ns,
    lemma_send_segments_len, link_tick, sdu_action, send_segments, sent_sdu, transmit, tx_pass,
    SduAction,
};
use crate::llc::al_tx::{
    after_al_tick, after_enqueue, after_flush, enqueue_msgs, entering_sdu, flushed, n_s_after,
    tick_pass, window_full, PendingView,
};
use crate::llc::config::LlcConfig;
use crate::llc::dispatch::{after_bl_tick, after_prim, bl_tick_msgs};
use crate::llc::entity::LlcView;
use crate::llc::laws::is_segment_msg;
use crate::llc::link_table::{
    drop_link, find_link, has_key, lemma_put_link, link_pos, links_wf, put_link,
};
use crate::llc::pdus::{
    AdvancedLinkService, AlAckAlRnrKind, AlAckView, AlSetup, SegmentationError,
};
use crate::saps::{SapMsgView, TxReporter, TxState};
use crate::tdma::{elapsed_spec, TdmaTime};
use vstd::prelude::*;

verus! {

// ---- the echo of a set-up ------------------------------------------------------------------

/// The link keeps the echo of its set-up only while it is established.
pub open spec fn echo_current(l: AlLinkView) -> bool {
    l.last_setup_echo is Some ==> l.phase == AlPhase::Established
}

/// No link keeps the echo of a set-up beyond the phase that it led to.
pub open spec fn echoes_current(links: Seq<AlLinkView>) -> bool {
    forall|i: int| 0 <= i < links.len() ==> echo_current(#[trigger] links[i])
}

proof fn lemma_echo_found(links: Seq<AlLinkView>, key: AlLinkKey)
    requires
        echoes_current(links),
        find_link(links, key) is Some,
    ensures
        echo_current(find_link(links, key)->0),
        find_link(links, key)->0.key == key,
{
    let i = link_pos(links, key)->0;
    assert(has_key(links, key, i));
    assert(echo_current(links[i]));
}

proof fn lemma_echo_put(links: Seq<AlLinkView>, link: AlLinkView)
    requires
        echoes_current(links),
        echo_current(link),
    ensures
        echoes_current(put_link(links, link)),
{
    if let Some(i) = link_pos(links, link.key) {
        assert(has_key(links, link.key, i));
    }
}

proof fn lemma_echo_drop(links: Seq<AlLinkView>, key: AlLinkKey)
    requires
        echoes_current(links),
    ensures
        echoes_current(drop_link(links, key)),
{
    if let Some(i) = link_pos(links, key) {
        assert(has_key(links, key, i));
        let t = drop_link(links, key);
        assert forall|k: int| 0 <= k < t.len() implies echo_current(#[trigger] t[k]) by {
            assert(echo_current(
                links[if k < i {
                    k
                } else {
                    k + 1
                }],
            ));
        }
    }
}

/// Whatever primitive comes in, no link keeps the echo of a set-up once it is no longer
/// established.
pub proof fn law_primitives_keep_echoes_current(st: LlcView, m: SapMsgView)
    requires
        st.wf(),
        echoes_current(st.links),
    ensures
        echoes_current(after_prim(st, m).links),
{
    let after = after_prim(st, m).links;
    assert forall|key: AlLinkKey| (#[trigger] find_link(st.links, key)) is Some implies echo_current(
        find_link(st.links, key)->0,
    ) && find_link(st.links, key)->0.key == key by {
        lemma_echo_found(st.links, key);
    }
    assert forall|link: AlLinkView| echo_current(link) implies echoes_current(
        #[trigger] put_link(st.links, link),
    ) by {
        lemma_echo_put(st.links, link);
    }
    assert forall|key: AlLinkKey| echoes_current(#[trigger] drop_link(st.links, key)) by {
        lemma_echo_drop(st.links, key);
    }
}

proof fn lemma_pass_keeps_echoes(st: LlcView, n: nat)
    requires
        echoes_current(st.links),
        n <= st.links.len(),
    ensures
        echoes_current(tick_pass(st, n).links),
    decreases n,
{
    if n > 0 {
        lemma_pass_keeps_echoes(st, (n - 1) as nat);
        let before = tick_pass(st, (n - 1) as nat);
        let l = st.links[n - 1];
        assert(echo_current(l));
        let t = link_tick(l, st.dltime, st.config, before.next_id);
        assert(echo_current(t.link));
    }
}

/// Nor does a tick leave a link with the echo of a set-up that it is no longer established
/// by.
pub proof fn law_tick_keeps_echoes_current(st: LlcView)
    requires
        st.wf(),
        echoes_current(st.links),
    ensures
        echoes_current(after_al_tick(st).links),
{
    let pass = tick_pass(st, st.links.len());
    lemma_pass_keeps_echoes(st, st.links.len());
    let t = after_flush(pass.links);
    assert forall|i: int| 0 <= i < t.len() implies echo_current(#[trigger] t[i]) by {
        assert(echo_current(pass.links[i]));
    }
}

/// A proposal that arrives after the peer stopped the link is taken as a new one, even if
/// it is the one that the link was accepted with, and even if the peer has let the link go
/// on in between.
pub proof fn law_set_up_after_flow_control_is_new(
    st: LlcView,
    key: AlLinkKey,
    rnr: AlAckView,
    ack: AlAckView,
    pdu: AlSetup,
)
    requires
        st.wf(),
        find_link(st.links, key) matches Some(l) && l.is_open(),
        rnr.kind == AlAckAlRnrKind::Rnr,
        ack.kind == AlAckAlRnrKind::Ack,
        setup_supported(pdu),
    ensures
        ({
            let st1 = after_ack_rnr(st, key, rnr);
            let st2 = after_ack_rnr(st1, key, ack);
            &&& setup_case(find_link(st1.links, key), pdu, st.config) == SetupCase::Accept
            &&& setup_case(find_link(st2.links, key), pdu, st.config) == SetupCase::Accept
        }),
{
    let i = link_pos(st.links, key)->0;
    assert(has_key(st.links, key, i));
    let st1 = after_ack_rnr(st, key, rnr);
    assert(has_key(st1.links, key, i));
    assert forall|k: int| has_key(st1.links, key, k) implies k == i by {
        if k < i {
            assert(st.links[k].key != st.links[i].key);
        }
        if i < k {
            assert(st.links[i].key != st.links[k].key);
        }
    }
    assert(find_link(st1.links, key) == Some(st1.links[i]));
    let st2 = after_ack_rnr(st1, key, ack);
    assert(has_key(st2.links, key, i));
    assert forall|k: int| has_key(st2.links, key, k) implies k == i by {
        assert(has_key(st1.links, key, k));
    }
    assert(find_link(st2.links, key) == Some(st2.links[i]));
}

// ---- a whole tick ------------------------------------------------------------------------

/// What the segmenter makes of a TL-SDU.
pub type Cut = Result<Seq<Seq<bool>>, SegmentationError>;

/// What a run of steps makes of the LLC, and what it sends.
#[verifier::ext_equal]
pub struct LlcRun {
    pub st: LlcView,
    pub msgs: Seq<SapMsgView>,
}

/// The first `n` TL-SDUs of a list are enqueued, oldest first, each as the segmenter cut
/// it.
pub open spec fn enqueue_run(st: LlcView, sdus: Seq<PendingView>, cuts: Seq<Cut>, n: nat) -> LlcRun
    decreases n,
{
    if n == 0 {
        LlcRun { st, msgs: Seq::empty() }
    } else {
        let before = enqueue_run(st, sdus, cuts, (n - 1) as nat);
        let p = sdus[n - 1];
        LlcRun {
            st: after_enqueue(before.st, p.key, p.sdu, cuts[n - 1]),
            msgs: before.msgs + enqueue_msgs(before.st, p.key, p.sdu, cuts[n - 1]),
        }
    }
}

/// The TL-SDUs that leave the waiting lists in a tick.
pub open spec fn released(st: LlcView) -> Seq<PendingView> {
    let links = tick_pass(st, st.links.len()).links;
    flushed(links, links.len())
}

/// The advanced-link part of a tick: the links are run, the TL-SDUs that were released are
/// enqueued, then the messages of the links go out and the losses are reported.
pub open spec fn al_tick_run(st: LlcView, cuts: Seq<Cut>) -> LlcRun {
    let pass = tick_pass(st, st.links.len());
    let enqueued = enqueue_run(after_al_tick(st), released(st), cuts, released(st).len());
    LlcRun { st: enqueued.st.with_events(pass.drops), msgs: enqueued.msgs + pass.msgs }
}

/// The tick: the basic link, then the advanced links.
pub open spec fn whole_tick_run(st: LlcView, cuts: Seq<Cut>) -> LlcRun {
    let al = al_tick_run(after_bl_tick(st), cuts);
    LlcRun { st: al.st, msgs: bl_tick_msgs(st) + al.msgs }
}

/// Enqueueing sends segments and nothing else, reports nothing, and touches nothing but the
/// links and the numbers of their reporters.
proof fn lemma_enqueue_run(st: LlcView, sdus: Seq<PendingView>, cuts: Seq<Cut>, n: nat)
    ensures
        ({
            let r = enqueue_run(st, sdus, cuts, n);
            &&& r.st == (LlcView { links: r.st.links, next_id: r.st.next_id, ..st })
            &&& forall|i: int| 0 <= i < r.msgs.len() ==> is_segment_msg(#[trigger] r.msgs[i])
        }),
    decreases n,
{
    if n > 0 {
        lemma_enqueue_run(st, sdus, cuts, (n - 1) as nat);
        let before = enqueue_run(st, sdus, cuts, (n - 1) as nat);
        let p = sdus[n - 1];
        let more = enqueue_msgs(before.st, p.key, p.sdu, cuts[n - 1]);
        assert forall|i: int| 0 <= i < more.len() implies is_segment_msg(#[trigger] more[i]) by {}
        let r = enqueue_run(st, sdus, cuts, n);
        assert forall|i: int| 0 <= i < r.msgs.len() implies is_segment_msg(
            #[trigger] r.msgs[i],
        ) by {
            if i < before.msgs.len() {
                assert(r.msgs[i] == before.msgs[i]);
            } else {
                assert(r.msgs[i] == more[i - before.msgs.len()]);
            }
        }
    }
}

/// A tick sends, in this order: what the basic link has to send, the segments of the TL-SDUs
/// that found room in a window, oldest first, and what the links send themselves. Then the
/// TL-SDUs that the links gave up are reported, in order, and nothing else is.
pub proof fn law_whole_tick_order(st: LlcView, cuts: Seq<Cut>)
    requires
        st.wf(),
    ensures
        ({
            let bl = after_bl_tick(st);
            let pass = tick_pass(bl, bl.links.len());
            let fresh = enqueue_run(after_al_tick(bl), released(bl), cuts, released(bl).len()).msgs;
            let r = whole_tick_run(st, cuts);
            &&& r.msgs == bl_tick_msgs(st) + fresh + pass.msgs
            &&& forall|i: int| 0 <= i < fresh.len() ==> is_segment_msg(#[trigger] fresh[i])
            &&& r.st.deliveries == bl.with_events(pass.drops).deliveries
            &&& r.st == (LlcView {
                links: r.st.links,
                next_id: r.st.next_id,
                deliveries: r.st.deliveries,
                ..bl
            })
        }),
{
    let bl = after_bl_tick(st);
    let pass = tick_pass(bl, bl.links.len());
    lemma_enqueue_run(after_al_tick(bl), released(bl), cuts, released(bl).len());
    let fresh = enqueue_run(after_al_tick(bl), released(bl), cuts, released(bl).len()).msgs;
    assert(whole_tick_run(st, cuts).msgs =~= bl_tick_msgs(st) + fresh + pass.msgs);
}

/// How many of `n` TL-SDUs find room in the window of a link.
pub open spec fn admitted(l: AlLinkView, n: nat) -> int {
    let room = l.effective_tx_sdu_window - l.outstanding.len();
    if n <= room {
        n as int
    } else {
        room
    }
}

/// The TL-SDUs that leave the waiting list of an established link enter its window in their
/// order, as far as there is room, and are sent at once. The rest wait again, in their order.
pub proof fn law_waiting_sdus_enter_in_order(
    st: LlcView,
    key: AlLinkKey,
    sdus: Seq<PendingView>,
    cuts: Seq<Cut>,
    n: nat,
)
    requires
        st.wf(),
        find_link(st.links, key) matches Some(l) && l.phase == AlPhase::Established
            && l.pending_sdus.len() == 0 && forall|k: int|
            0 <= k < n ==> (#[trigger] sdus[k]).sdu.len() <= l.max_tl_sdu_octets,
        n <= sdus.len(),
        n <= cuts.len(),
        forall|k: int| 0 <= k < n ==> (#[trigger] sdus[k]).key == key,
        forall|k: int| 0 <= k < n ==> (#[trigger] cuts[k]) is Ok,
    ensures
        ({
            let l = find_link(st.links, key)->0;
            let e = admitted(l, n);
            let after = enqueue_run(st, sdus, cuts, n).st;
            &&& links_wf(after.links)
            &&& find_link(after.links, key) matches Some(m) && {
                &&& m == (AlLinkView {
                    next_n_s: m.next_n_s,
                    outstanding: m.outstanding,
                    pending_sdus: m.pending_sdus,
                    ..l
                })
                &&& m.outstanding.len() == l.outstanding.len() + e
                &&& forall|k: int|
                    0 <= k < l.outstanding.len() ==> #[trigger] m.outstanding[k]
                        == l.outstanding[k]
                &&& forall|k: int|
                    l.outstanding.len() <= k < l.outstanding.len() + e ==> (
                    #[trigger] m.outstanding[k]).pdus == cuts[k - l.outstanding.len()]->Ok_0
                        && m.outstanding[k].sent_at == Some(st.dltime)
                &&& m.pending_sdus == Seq::new((n - e) as nat, |k: int| sdus[e + k].sdu)
            }
        }),
    decreases n,
{
    let l = find_link(st.links, key)->0;
    let i = link_pos(st.links, key)->0;
    assert(has_key(st.links, key, i));
    assert(st.links[i].wf());
    if n == 0 {
        assert(l.pending_sdus =~= Seq::new(0, |k: int| sdus[admitted(l, 0) + k].sdu));
    } else {
        law_waiting_sdus_enter_in_order(st, key, sdus, cuts, (n - 1) as nat);
        lemma_enqueue_run(st, sdus, cuts, (n - 1) as nat);
        let before = enqueue_run(st, sdus, cuts, (n - 1) as nat).st;
        let m = find_link(before.links, key)->0;
        let j = link_pos(before.links, key)->0;
        assert(has_key(before.links, key, j));
        assert(before.links[j].wf());
        let p = sdus[n - 1];
        assert(p.key == key);
        assert(p.sdu.len() <= l.max_tl_sdu_octets);
        assert(cuts[n - 1] is Ok);
        let segs = cuts[n - 1]->Ok_0;
        let e0 = admitted(l, (n - 1) as nat);
        let e = admitted(l, n);
        if window_full(m) {
            let w = AlLinkView { pending_sdus: m.pending_sdus.push(p.sdu), ..m };
            lemma_put_link(before.links, w);
            assert(e == e0);
            assert(w.pending_sdus =~= Seq::new((n - e) as nat, |k: int| sdus[e + k].sdu));
        } else {
            let w = AlLinkView {
                next_n_s: n_s_after(m.next_n_s, m.tx_window),
                outstanding: m.outstanding.push(
                    entering_sdu(m, segs, before.next_id, before.dltime),
                ),
                ..m
            };
            assert(w.wf());
            lemma_put_link(before.links, w);
            assert(e == n && e0 == n - 1);
            assert(w.pending_sdus =~= Seq::new((n - e) as nat, |k: int| sdus[e + k].sdu));
        }
    }
}

// ---- a silent peer -----------------------------------------------------------------------

/// One wait for an acknowledgement that does not come: the MAC reports what `reporters` say,
/// a tick sees the last segment on the air, ticks pass while T.252 runs, and one comes after
/// it ran out.
#[verifier::ext_equal]
pub struct SilentWait {
    pub reporters: Seq<Option<TxReporter>>,
    pub on_air: TdmaTime,
    pub waiting: Seq<TdmaTime>,
    pub expiry: TdmaTime,
}

/// The wait is one for a TL-SDU of which the segments in `acked` are confirmed: every other
/// segment has been on the air, and T.252 runs out at its end and not before.
pub open spec fn wait_runs_out(w: SilentWait, acked: Seq<bool>, t252: u32) -> bool {
    &&& w.reporters.len() == acked.len()
    &&& forall|i: int|
        0 <= i < acked.len() ==> (#[trigger] w.reporters[i] matches Some(r) && (!acked[i]
            ==> r.state == TxState::Transmitted))
    &&& forall|i: int|
        0 <= i < w.waiting.len() ==> !elapsed_spec(#[trigger] w.waiting[i], w.on_air, t252)
    &&& elapsed_spec(w.expiry, w.on_air, t252)
    &&& !elapsed_spec(w.on_air, w.on_air, t252)
}

/// What a run of ticks makes of a link: how often it sent segments and what it gave up.
#[verifier::ext_equal]
pub struct LinkRun {
    pub link: AlLinkView,
    pub sends: nat,
    pub drops: Seq<AlDeliveryEvent>,
    pub next_id: u64,
}

/// The messages hold a data segment.
pub open spec fn has_segment(msgs: Seq<SapMsgView>) -> bool {
    exists|i: int| 0 <= i < msgs.len() && is_segment_msg(#[trigger] msgs[i])
}

/// The run goes on with a tick at `now`.
pub open spec fn run_tick(r: LinkRun, now: TdmaTime, cfg: LlcConfig) -> LinkRun {
    let t = link_tick(r.link, now, cfg, r.next_id);
    LinkRun {
        link: t.link,
        sends: if has_segment(t.msgs) {
            r.sends + 1
        } else {
            r.sends
        },
        drops: r.drops + t.drops,
        next_id: t.next_id,
    }
}

/// The run goes on with the first `n` of a list of ticks.
pub open spec fn run_ticks(r: LinkRun, times: Seq<TdmaTime>, cfg: LlcConfig, n: nat) -> LinkRun
    decreases n,
{
    if n == 0 {
        r
    } else {
        run_tick(run_ticks(r, times, cfg, (n - 1) as nat), times[n - 1], cfg)
    }
}

/// The MAC reports on the segments of the oldest TL-SDU of the link.
pub open spec fn run_reports(r: LinkRun, reporters: Seq<Option<TxReporter>>) -> LinkRun {
    if r.link.outstanding.len() == 0 {
        r
    } else {
        LinkRun {
            link: AlLinkView {
                outstanding: r.link.outstanding.update(
                    0,
                    OutstandingView { reporters, ..r.link.outstanding[0] },
                ),
                ..r.link
            },
            ..r
        }
    }
}

/// The run goes on with a wait.
pub open spec fn run_wait(r: LinkRun, w: SilentWait, cfg: LlcConfig) -> LinkRun {
    let seen = run_tick(run_reports(r, w.reporters), w.on_air, cfg);
    run_tick(run_ticks(seen, w.waiting, cfg, w.waiting.len()), w.expiry, cfg)
}

/// The run goes on with the first `n` of a list of waits.
pub open spec fn run_waits(r: LinkRun, waits: Seq<SilentWait>, cfg: LlcConfig, n: nat) -> LinkRun
    decreases n,
{
    if n == 0 {
        r
    } else {
        run_wait(run_waits(r, waits, cfg, (n - 1) as nat), waits[n - 1], cfg)
    }
}

/// How the loss of a TL-SDU is reported on a link with this budget.
pub open spec fn loss_outcome(max_retx: u8) -> AlDeliveryOutcome {
    if max_retx == 0 {
        AlDeliveryOutcome::DroppedFireAndForget
    } else {
        AlDeliveryOutcome::DroppedRetxExhausted
    }
}

/// The link is up and what bounds its retransmissions is that of `l`.
spec fn same_terms(l: AlLinkView, m: AlLinkView) -> bool {
    &&& m.phase == AlPhase::Established
    &&& m.key == l.key
    &&& m.service == l.service
    &&& m.max_sdu_retx == l.max_sdu_retx
    &&& m.max_segment_retx == l.max_segment_retx
}

/// The TL-SDU is `s`, sent `count` times again, with its clock at `tail`.
spec fn same_sdu(s: OutstandingView, x: OutstandingView, count: int, tail: Option<TdmaTime>) -> bool {
    &&& x.wf()
    &&& x.n_s == s.n_s
    &&& x.pdus == s.pdus
    &&& x.acked == s.acked
    &&& x.sent_at is Some
    &&& !x.force_retx
    &&& x.retx_count == count
    &&& x.last_segment_tx_at == tail
}

/// The segments of a TL-SDU that is not confirmed in full give at least one message.
proof fn lemma_sends_a_segment(s: OutstandingView, l: AlLinkView, id: u64, n: nat)
    requires
        s.wf(),
        n <= s.pdus.len(),
        exists|i: int| 0 <= i < n && !#[trigger] s.acked[i],
    ensures
        has_segment(send_segments(s, l.route(), id, n).msgs),
    decreases n,
{
    let before = send_segments(s, l.route(), id, (n - 1) as nat);
    let after = send_segments(s, l.route(), id, n);
    if s.acked[n - 1] {
        let i = choose|i: int| 0 <= i < n && !#[trigger] s.acked[i];
        assert(i < n - 1);
        lemma_sends_a_segment(s, l, id, (n - 1) as nat);
    } else {
        assert(is_segment_msg(after.msgs[before.msgs.len() as int]));
    }
}

/// A window of one TL-SDU without those dropped.
proof fn lemma_without_one(x: OutstandingView, dropped: Seq<u8>)
    ensures
        without(seq![x], dropped) == (if dropped.contains(x.n_s) {
            Seq::<OutstandingView>::empty()
        } else {
            seq![x]
        }),
{
    reveal_with_fuel(Seq::filter, 2);
    assert(seq![x].drop_last() =~= Seq::<OutstandingView>::empty());
    assert(Seq::<OutstandingView>::empty().push(x) =~= seq![x]);
}

/// One tick of an established link with one TL-SDU in its window.
proof fn lemma_tick_of_one(l: AlLinkView, now: TdmaTime, cfg: LlcConfig, id: u64)
    requires
        l.phase == AlPhase::Established,
        l.outstanding.len() == 1,
        l.outstanding[0].wf(),
    ensures
        ({
            let t = link_tick(l, now, cfg, id);
            let s = clocked(l.outstanding[0], now);
            &&& same_terms(l, t.link)
            &&& match sdu_action(s, effective_max_retx(l, cfg), now, cfg) {
                SduAction::Keep => {
                    &&& t.link.outstanding == seq![s]
                    &&& t.drops == Seq::<AlDeliveryEvent>::empty()
                    &&& !has_segment(t.msgs)
                },
                SduAction::Send => {
                    &&& t.link.outstanding == seq![sent_sdu(s, l.route(), now, id)]
                    &&& t.drops == Seq::<AlDeliveryEvent>::empty()
                    &&& has_segment(t.msgs)
                },
                SduAction::Drop(outcome) => {
                    &&& t.link.outstanding == Seq::<OutstandingView>::empty()
                    &&& t.drops == seq![l.key.event(s.n_s, outcome)]
                    &&& !has_segment(t.msgs)
                },
            }
        }),
{
    reveal_with_fuel(tx_pass, 2);
    let t = link_tick(l, now, cfg, id);
    let s = clocked(l.outstanding[0], now);
    assert(s.wf());
    let pass = tx_pass(l, now, cfg, id, 1);
    let tail = deferred_ack(transmit(l, now, cfg, id).link);
    assert(!has_segment(tail));
    assert(t.msgs =~= pass.msgs + tail);
    assert(pass.sdus =~= seq![pass.sdus[0]]);
    lemma_without_one(pass.sdus[0], event_ns(pass.drops));
    match sdu_action(s, effective_max_retx(l, cfg), now, cfg) {
        SduAction::Keep => {
            assert(pass.msgs =~= Seq::<SapMsgView>::empty());
            assert(t.msgs =~= tail);
            assert(!event_ns(pass.drops).contains(s.n_s));
        },
        SduAction::Send => {
            let sent = send_segments(s, l.route(), id, s.pdus.len());
            lemma_sends_a_segment(s, l, id, s.pdus.len());
            let i = choose|i: int| 0 <= i < sent.msgs.len() && is_segment_msg(#[trigger] sent.msgs[i]);
            assert(pass.msgs =~= sent.msgs);
            assert(is_segment_msg(t.msgs[i]));
            assert(!event_ns(pass.drops).contains(s.n_s));
        },
        SduAction::Drop(outcome) => {
            assert(pass.msgs =~= Seq::<SapMsgView>::empty());
            assert(t.msgs =~= tail);
            assert(event_ns(pass.drops)[0] == s.n_s);
            assert(event_ns(pass.drops).contains(s.n_s));
        },
    }
}

/// A tick of an established link with an empty window sends no data and gives nothing up.
proof fn lemma_tick_of_none(l: AlLinkView, now: TdmaTime, cfg: LlcConfig, id: u64)
    requires
        l.phase == AlPhase::Established,
        l.outstanding.len() == 0,
    ensures
        ({
            let t = link_tick(l, now, cfg, id);
            &&& same_terms(l, t.link)
            &&& t.link.outstanding.len() == 0
            &&& t.drops == Seq::<AlDeliveryEvent>::empty()
            &&& !has_segment(t.msgs)
        }),
{
    reveal(Seq::filter);
    let t = link_tick(l, now, cfg, id);
    let tail = deferred_ack(transmit(l, now, cfg, id).link);
    assert(!has_segment(tail));
    assert(t.msgs =~= tail);
    assert(t.drops =~= Seq::<AlDeliveryEvent>::empty());
}

/// While T.252 runs nothing happens to the TL-SDU.
proof fn lemma_ticks_while_waiting(
    r: LinkRun,
    s: OutstandingView,
    count: int,
    tail: TdmaTime,
    times: Seq<TdmaTime>,
    cfg: LlcConfig,
    n: nat,
)
    requires
        r.link.phase == AlPhase::Established,
        r.link.outstanding.len() == 1,
        same_sdu(s, r.link.outstanding[0], count, Some(tail)),
        n <= times.len(),
        forall|i: int|
            0 <= i < n ==> !elapsed_spec(
                #[trigger] times[i],
                tail,
                cfg.limits.t252_ack_waiting,
            ),
    ensures
        ({
            let e = run_ticks(r, times, cfg, n);
            &&& same_terms(r.link, e.link)
            &&& e.link.outstanding.len() == 1
            &&& same_sdu(s, e.link.outstanding[0], count, Some(tail))
            &&& e.sends == r.sends
            &&& e.drops == r.drops
        }),
    decreases n,
{
    if n > 0 {
        lemma_ticks_while_waiting(r, s, count, tail, times, cfg, (n - 1) as nat);
        let before = run_ticks(r, times, cfg, (n - 1) as nat);
        assert(!elapsed_spec(times[n - 1], tail, cfg.limits.t252_ack_waiting));
        lemma_tick_of_one(before.link, times[n - 1], cfg, before.next_id);
        assert(run_ticks(r, times, cfg, n).drops =~= r.drops);
    }
}

/// Ticks of an established link with an empty window.
proof fn lemma_ticks_of_none(r: LinkRun, times: Seq<TdmaTime>, cfg: LlcConfig, n: nat)
    requires
        r.link.phase == AlPhase::Established,
        r.link.outstanding.len() == 0,
    ensures
        ({
            let e = run_ticks(r, times, cfg, n);
            &&& same_terms(r.link, e.link)
            &&& e.link.outstanding.len() == 0
            &&& e.sends == r.sends
            &&& e.drops == r.drops
        }),
    decreases n,
{
    if n > 0 {
        lemma_ticks_of_none(r, times, cfg, (n - 1) as nat);
        let before = run_ticks(r, times, cfg, (n - 1) as nat);
        lemma_tick_of_none(before.link, times[n - 1], cfg, before.next_id);
        assert(run_ticks(r, times, cfg, n).drops =~= r.drops);
    }
}

/// One wait: within the budget the TL-SDU is sent again, beyond it it is given up.
proof fn lemma_one_wait(r: LinkRun, s: OutstandingView, count: int, w: SilentWait, cfg: LlcConfig)
    requires
        s.has_unacked(),
        r.link.phase == AlPhase::Established,
        r.link.outstanding.len() == 1,
        same_sdu(s, r.link.outstanding[0], count, None),
        0 <= count <= effective_max_retx(r.link, cfg),
        wait_runs_out(w, s.acked, cfg.limits.t252_ack_waiting),
    ensures
        ({
            let e = run_wait(r, w, cfg);
            let max = effective_max_retx(r.link, cfg);
            &&& same_terms(r.link, e.link)
            &&& if count < max {
                &&& e.link.outstanding.len() == 1
                &&& same_sdu(s, e.link.outstanding[0], count + 1, None)
                &&& e.sends == r.sends + 1
                &&& e.drops == r.drops
            } else {
                &&& e.link.outstanding.len() == 0
                &&& e.sends == r.sends
                &&& e.drops == r.drops.push(r.link.key.event(s.n_s, loss_outcome(max)))
            }
        }),
{
    let heard = run_reports(r, w.reporters);
    let x = heard.link.outstanding[0];
    assert(all_on_air(x));
    assert(x.has_unacked()) by {
        let i = choose|i: int| 0 <= i < s.acked.len() && !#[trigger] s.acked[i];
        assert(!x.acked[i]);
    }
    lemma_tick_of_one(heard.link, w.on_air, cfg, heard.next_id);
    assert(!any_discarded(x));
    let seen = run_tick(heard, w.on_air, cfg);
    assert(seen.drops =~= r.drops);
    assert(same_sdu(s, seen.link.outstanding[0], count, Some(w.on_air)));
    lemma_ticks_while_waiting(seen, s, count, w.on_air, w.waiting, cfg, w.waiting.len());
    let waited = run_ticks(seen, w.waiting, cfg, w.waiting.len());
    let y = waited.link.outstanding[0];
    lemma_tick_of_one(waited.link, w.expiry, cfg, waited.next_id);
    assert(y.has_unacked()) by {
        let i = choose|i: int| 0 <= i < s.acked.len() && !#[trigger] s.acked[i];
        assert(!y.acked[i]);
    }
    lemma_send_segments_len(y, waited.link.route(), waited.next_id, y.pdus.len());
    let e = run_wait(r, w, cfg);
    if count < effective_max_retx(r.link, cfg) {
        assert(e.drops =~= r.drops);
    } else {
        assert(e.drops =~= r.drops.push(
            r.link.key.event(s.n_s, loss_outcome(effective_max_retx(r.link, cfg))),
        ));
    }
}

/// The peer is silent: a TL-SDU that was sent, of which every unconfirmed segment gets on the
/// air after each transmission, is sent again when T.252 runs out, exactly as often as the
/// link allows. The next time T.252 runs out it leaves the window with one event, and no
/// further one comes. The first transmission does not count.
pub proof fn law_silent_peer_exact_retransmissions(
    l: AlLinkView,
    waits: Seq<SilentWait>,
    cfg: LlcConfig,
    id: u64,
    n: nat,
)
    requires
        l.wf(),
        l.phase == AlPhase::Established,
        l.outstanding.len() == 1,
        l.outstanding[0].has_unacked(),
        l.outstanding[0].sent_at is Some,
        l.outstanding[0].last_segment_tx_at is None,
        l.outstanding[0].retx_count == 0,
        !l.outstanding[0].force_retx,
        n <= waits.len(),
        forall|k: int|
            0 <= k < n ==> wait_runs_out(
                #[trigger] waits[k],
                l.outstanding[0].acked,
                cfg.limits.t252_ack_waiting,
            ),
    ensures
        ({
            let start = LinkRun { link: l, sends: 0, drops: Seq::empty(), next_id: id };
            let max = effective_max_retx(l, cfg);
            let r = run_waits(start, waits, cfg, n);
            &&& r.link.phase == AlPhase::Established
            &&& n <= max ==> {
                &&& r.sends == n
                &&& r.drops == Seq::<AlDeliveryEvent>::empty()
                &&& r.link.outstanding.len() == 1
                &&& r.link.outstanding[0].n_s == l.outstanding[0].n_s
                &&& r.link.outstanding[0].pdus == l.outstanding[0].pdus
                &&& r.link.outstanding[0].retx_count == n
            }
            &&& n > max ==> {
                &&& r.sends == max
                &&& r.drops == seq![l.key.event(l.outstanding[0].n_s, loss_outcome(max))]
                &&& r.link.outstanding.len() == 0
            }
        }),
{
    lemma_silent_waits(l, waits, cfg, id, n);
}

/// See [`law_silent_peer_exact_retransmissions`].
proof fn lemma_silent_waits(
    l: AlLinkView,
    waits: Seq<SilentWait>,
    cfg: LlcConfig,
    id: u64,
    n: nat,
)
    requires
        l.wf(),
        l.phase == AlPhase::Established,
        l.outstanding.len() == 1,
        l.outstanding[0].has_unacked(),
        l.outstanding[0].sent_at is Some,
        l.outstanding[0].last_segment_tx_at is None,
        l.outstanding[0].retx_count == 0,
        !l.outstanding[0].force_retx,
        n <= waits.len(),
        forall|k: int|
            0 <= k < n ==> wait_runs_out(
                #[trigger] waits[k],
                l.outstanding[0].acked,
                cfg.limits.t252_ack_waiting,
            ),
    ensures
        ({
            let start = LinkRun { link: l, sends: 0, drops: Seq::empty(), next_id: id };
            let max = effective_max_retx(l, cfg);
            let r = run_waits(start, waits, cfg, n);
            &&& same_terms(l, r.link)
            &&& if n <= max {
                &&& r.sends == n
                &&& r.drops == Seq::<AlDeliveryEvent>::empty()
                &&& r.link.outstanding.len() == 1
                &&& same_sdu(l.outstanding[0], r.link.outstanding[0], n as int, None)
            } else {
                &&& r.sends == max
                &&& r.drops == seq![l.key.event(l.outstanding[0].n_s, loss_outcome(max))]
                &&& r.link.outstanding.len() == 0
            }
        }),
    decreases n,
{
    let start = LinkRun { link: l, sends: 0, drops: Seq::empty(), next_id: id };
    let max = effective_max_retx(l, cfg);
    let s = l.outstanding[0];
    assert(s.wf());
    if n > 0 {
        lemma_silent_waits(l, waits, cfg, id, (n - 1) as nat);
        let before = run_waits(start, waits, cfg, (n - 1) as nat);
        let w = waits[n - 1];
        assert(effective_max_retx(before.link, cfg) == max);
        if n - 1 <= max {
            lemma_one_wait(before, s, n - 1, w, cfg);
            if n - 1 == max {
                assert(run_waits(start, waits, cfg, n).drops =~= seq![
                    l.key.event(s.n_s, loss_outcome(max)),
                ]);
            }
        } else {
            lemma_tick_of_none(before.link, w.on_air, cfg, before.next_id);
            let seen = run_tick(before, w.on_air, cfg);
            assert(seen.drops =~= before.drops);
            lemma_ticks_of_none(seen, w.waiting, cfg, w.waiting.len());
            let waited = run_ticks(seen, w.waiting, cfg, w.waiting.len());
            lemma_tick_of_none(waited.link, w.expiry, cfg, waited.next_id);
            assert(run_waits(start, waits, cfg, n).drops =~= before.drops);
        }
    }
}

/// How often an acknowledged link sends a TL-SDU again: never with N.274 = 0, else the
/// smaller of N.273 and N.274. This holds of every setting, unless N.273 alone is zero.
pub proof fn law_retransmission_budget(l: AlLinkView, cfg: LlcConfig)
    requires
        l.service == AdvancedLinkService::Ack,
        l.max_sdu_retx > 0 || l.max_segment_retx == 0,
    ensures
        effective_max_retx(l, cfg) == (if l.max_segment_retx == 0 {
            0int
        } else if l.max_sdu_retx <= l.max_segment_retx {
            l.max_sdu_retx as int
        } else {
            l.max_segment_retx as int
        }),
{
}

} // verus!
