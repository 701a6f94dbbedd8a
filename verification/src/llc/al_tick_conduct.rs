//! What a tick makes of the advanced links, told by what it leaves behind and what it sends.

use crate::al_events::{AlDeliveryEvent, AlDeliveryOutcome};
use crate::llc::al_conduct::{
    hands_over, is_up, law_segment_report, link_of, oldest, same_agreement, same_procedures,
};
use crate::llc::al_link::{AlLinkView, AlPhase, OutstandingView, UnackSlot};
use crate::llc::al_tick::{
    clocked, deferred_ack, effective_max_retx, event_ns, link_tick, link_tick_removes, sdu_action,
    send_segments, transmit, tx_pass, SduAction,
};
use crate::llc::al_tx::{after_al_tick, flushed, tick_pass};
use crate::llc::bl_conduct::hands_up;
use crate::llc::config::LlcConfig;
use crate::llc::dispatch::after_prim;
use crate::llc::entity::LlcView;
use crate::llc::pdus::{
    AckBlockView, AckLength, AlAckAlRnrKind, AlAckView, AlDiscCause, RxPduView, SR,
};
use crate::llc::runs::released;
use crate::saps::{
    LlcPduView, ReporterId, SapInnerView, SapMsgView, TmaIndView, TxReporter, TxState,
};
use crate::tdma::TdmaTime;
use vstd::prelude::*;

verus! {

/// A timer of `timeout` timeslots that started at `start` has run out at `now`.
pub open spec fn ran_out(now: TdmaTime, start: TdmaTime, timeout: u32) -> bool {
    !(0 <= now.slot_index() - start.slot_index() < timeout)
}

/// How many of the first `n` segments are not confirmed.
pub open spec fn unconfirmed(acked: Seq<bool>, n: int) -> nat
    decreases n,
{
    if n <= 0 {
        0
    } else if acked[n - 1] {
        unconfirmed(acked, n - 1)
    } else {
        unconfirmed(acked, n - 1) + 1
    }
}

/// The messages from `base` on are the unconfirmed segments of `x`, each once and in order, and
/// `y` follows each under the reporter that went with it.
pub open spec fn segments_from(
    msgs: Seq<SapMsgView>,
    l: AlLinkView,
    x: OutstandingView,
    y: OutstandingView,
    base: int,
) -> bool {
    &&& 0 <= base && base + unconfirmed(x.acked, x.pdus.len() as int) <= msgs.len()
    &&& forall|k: int|
        0 <= k < x.pdus.len() && !(#[trigger] x.acked[k]) ==> hands_over(
            msgs[base + unconfirmed(x.acked, k)],
            l,
            LlcPduView::AlSegment(x.pdus[k]),
            y.reporters[k],
        ) && (y.reporters[k] matches Some(r) && r.state == TxState::Pending)
}

/// `y` is `x` after a transmission at `now`: one that was sent before has one more
/// retransmission to its account.
pub open spec fn sent_at_now(x: OutstandingView, y: OutstandingView, now: TdmaTime) -> bool {
    &&& y.n_s == x.n_s && y.pdus == x.pdus && y.acked == x.acked
    &&& y.sent_at == Some(now)
    &&& y.last_segment_tx_at is None
    &&& !y.force_retx
    &&& y.retx_count == x.retx_count + (if x.sent_at is None {
        0int
    } else {
        1int
    })
    &&& y.reporters.len() == x.reporters.len()
    &&& forall|k: int|
        0 <= k < x.pdus.len() && #[trigger] x.acked[k] ==> y.reporters[k] == x.reporters[k]
}

/// TL-SDU `x` went out among `msgs` and is followed as `y`.
pub open spec fn went_out(
    msgs: Seq<SapMsgView>,
    l: AlLinkView,
    x: OutstandingView,
    y: OutstandingView,
    now: TdmaTime,
    base: int,
) -> bool {
    segments_from(msgs, l, x, y, base) && sent_at_now(x, y, now)
}

proof fn lemma_count(acked: Seq<bool>, k: int, n: int)
    requires
        0 <= k < n,
        !acked[k],
    ensures
        unconfirmed(acked, k) < unconfirmed(acked, n),
    decreases n,
{
    if k < n - 1 {
        lemma_count(acked, k, n - 1);
    }
}

proof fn lemma_segment_count(s: OutstandingView, l: AlLinkView, id: u64, n: nat)
    requires
        n <= s.reporters.len(),
    ensures
        send_segments(s, l.route(), id, n).msgs.len() == unconfirmed(s.acked, n as int),
        send_segments(s, l.route(), id, n).reporters.len() == s.reporters.len(),
    decreases n,
{
    if n > 0 {
        lemma_segment_count(s, l, id, (n - 1) as nat);
    }
}

proof fn lemma_segment(s: OutstandingView, l: AlLinkView, id: u64, n: nat, k: int)
    requires
        s.wf(),
        n <= s.pdus.len(),
        0 <= k < s.pdus.len(),
    ensures
        ({
            let r = send_segments(s, l.route(), id, n);
            &&& k < n && !s.acked[k] ==> hands_over(
                r.msgs[unconfirmed(s.acked, k) as int],
                l,
                LlcPduView::AlSegment(s.pdus[k]),
                r.reporters[k],
            ) && (r.reporters[k] matches Some(x) && x.state == TxState::Pending)
            &&& k >= n || s.acked[k] ==> r.reporters[k] == s.reporters[k]
        }),
    decreases n,
{
    if n > 0 {
        lemma_segment(s, l, id, (n - 1) as nat, k);
        lemma_segment_count(s, l, id, (n - 1) as nat);
        if k < n - 1 && !s.acked[k] {
            lemma_count(s.acked, k, n - 1);
        }
    }
}

proof fn lemma_pass_sends(l: AlLinkView, now: TdmaTime, cfg: LlcConfig, id: u64, n: nat, j: int)
    requires
        l.wf(),
        0 <= j < n <= l.outstanding.len(),
        sdu_action(clocked(l.outstanding[j], now), effective_max_retx(l, cfg), now, cfg)
            == SduAction::Send,
        l.outstanding[j].sent_at is None || l.outstanding[j].retx_count < 255,
    ensures
        tx_pass(l, now, cfg, id, n).sdus.len() == n,
        exists|base: int|
            went_out(
                tx_pass(l, now, cfg, id, n).msgs,
                l,
                clocked(l.outstanding[j], now),
                tx_pass(l, now, cfg, id, n).sdus[j],
                now,
                base,
            ),
    decreases n,
{
    let before = tx_pass(l, now, cfg, id, (n - 1) as nat);
    let pass = tx_pass(l, now, cfg, id, n);
    let x = clocked(l.outstanding[j], now);
    lemma_pass_len(l, now, cfg, id, n);
    lemma_pass_len(l, now, cfg, id, (n - 1) as nat);
    if j < n - 1 {
        lemma_pass_sends(l, now, cfg, id, (n - 1) as nat, j);
        let base = choose|base: int| went_out(before.msgs, l, x, before.sdus[j], now, base);
        assert forall|k: int| 0 <= k < x.pdus.len() && !(#[trigger] x.acked[k]) implies hands_over(
            pass.msgs[base + unconfirmed(x.acked, k)],
            l,
            LlcPduView::AlSegment(x.pdus[k]),
            pass.sdus[j].reporters[k],
        ) by {
            lemma_count(x.acked, k, x.pdus.len() as int);
        }
        assert(went_out(pass.msgs, l, x, pass.sdus[j], now, base));
    } else {
        assert(l.outstanding[j].wf());
        lemma_segment_count(x, l, before.next_id, x.pdus.len());
        let base = before.msgs.len() as int;
        let out = send_segments(x, l.route(), before.next_id, x.pdus.len());
        assert forall|k: int| 0 <= k < x.pdus.len() && !(#[trigger] x.acked[k]) implies hands_over(
            pass.msgs[base + unconfirmed(x.acked, k)],
            l,
            LlcPduView::AlSegment(x.pdus[k]),
            pass.sdus[j].reporters[k],
        ) by {
            lemma_count(x.acked, k, x.pdus.len() as int);
            lemma_segment(x, l, before.next_id, x.pdus.len(), k);
            assert(pass.msgs[base + unconfirmed(x.acked, k)] == out.msgs[unconfirmed(
                x.acked,
                k,
            ) as int]);
        }
        let y = pass.sdus[j];
        assert forall|k: int| 0 <= k < x.pdus.len() implies if #[trigger] x.acked[k] {
            y.reporters[k] == x.reporters[k]
        } else {
            y.reporters[k] matches Some(r) && r.state == TxState::Pending
        } by {
            lemma_segment(x, l, before.next_id, x.pdus.len(), k);
        }
        assert(went_out(pass.msgs, l, x, y, now, base));
    }
}

proof fn lemma_pass_len(l: AlLinkView, now: TdmaTime, cfg: LlcConfig, id: u64, n: nat)
    requires
        n <= l.outstanding.len(),
    ensures
        tx_pass(l, now, cfg, id, n).sdus.len() == n,
        forall|j: int|
            0 <= j < n ==> (#[trigger] tx_pass(l, now, cfg, id, n).sdus[j]).n_s
                == l.outstanding[j].n_s,
        forall|j: int|
            0 <= j < n && sdu_action(
                clocked(#[trigger] l.outstanding[j], now),
                effective_max_retx(l, cfg),
                now,
                cfg,
            ) != SduAction::Send ==> tx_pass(l, now, cfg, id, n).sdus[j] == clocked(
                l.outstanding[j],
                now,
            ),
    decreases n,
{
    if n > 0 {
        lemma_pass_len(l, now, cfg, id, (n - 1) as nat);
    }
}

/// Every reported drop belongs to a TL-SDU that is given up.
proof fn lemma_drop_from(l: AlLinkView, now: TdmaTime, cfg: LlcConfig, id: u64, n: nat, i: int) -> (j: int)
    requires
        n <= l.outstanding.len(),
        0 <= i < tx_pass(l, now, cfg, id, n).drops.len(),
    ensures
        0 <= j < n,
        gives_up(l.outstanding[j], l, now, cfg, tx_pass(l, now, cfg, id, n).drops[i]),
    decreases n,
{
    let before = tx_pass(l, now, cfg, id, (n - 1) as nat).drops;
    if i < before.len() {
        lemma_drop_from(l, now, cfg, id, (n - 1) as nat, i)
    } else {
        n - 1
    }
}

/// Every TL-SDU that is given up is reported.
proof fn lemma_drop_of(l: AlLinkView, now: TdmaTime, cfg: LlcConfig, id: u64, n: nat, j: int) -> (i: int)
    requires
        0 <= j < n <= l.outstanding.len(),
        sdu_action(clocked(l.outstanding[j], now), effective_max_retx(l, cfg), now, cfg) is Drop,
    ensures
        0 <= i < tx_pass(l, now, cfg, id, n).drops.len(),
        gives_up(l.outstanding[j], l, now, cfg, tx_pass(l, now, cfg, id, n).drops[i]),
    decreases n,
{
    if j < n - 1 {
        lemma_drop_of(l, now, cfg, id, (n - 1) as nat, j)
    } else {
        tx_pass(l, now, cfg, id, n).drops.len() - 1
    }
}

/// The event reports that TL-SDU `x` is given up.
spec fn gives_up(
    x: OutstandingView,
    l: AlLinkView,
    now: TdmaTime,
    cfg: LlcConfig,
    e: AlDeliveryEvent,
) -> bool {
    &&& sdu_action(clocked(x, now), effective_max_retx(l, cfg), now, cfg) is Drop
    &&& e == l.key.event(
        x.n_s,
        sdu_action(clocked(x, now), effective_max_retx(l, cfg), now, cfg)->Drop_0,
    )
}

// ---- what a TL-SDU of the window is due -------------------------------------------------------

/// Not every segment of the TL-SDU is confirmed.
pub open spec fn incomplete(x: OutstandingView) -> bool {
    exists|k: int| 0 <= k < x.acked.len() && !#[trigger] x.acked[k]
}

/// The MAC threw an unconfirmed segment away.
pub open spec fn thrown_away(x: OutstandingView) -> bool {
    exists|k: int|
        0 <= k < x.reporters.len() && !x.acked[k] && (#[trigger] x.reporters[k] matches Some(r)
            && r.state == TxState::Discarded)
}

/// Every unconfirmed segment has been on the air.
pub open spec fn aired(x: OutstandingView) -> bool {
    &&& x.reporters.len() > 0
    &&& forall|k: int|
        0 <= k < x.reporters.len() && !x.acked[k] ==> (#[trigger] x.reporters[k] matches Some(r)
            && r.state == TxState::Transmitted)
}

/// Somebody asks for the TL-SDU to be sent at once: the peer, or the MAC that threw a segment
/// away before the last one was on the air.
pub open spec fn asked_again(x: OutstandingView) -> bool {
    x.force_retx || x.last_segment_tx_at is None && thrown_away(x)
}

/// The wait for the acknowledgement of the TL-SDU has run out. A wait that begins now is over
/// at once only if it is to last no time at all.
pub open spec fn waited_out(x: OutstandingView, now: TdmaTime, cfg: LlcConfig) -> bool {
    match x.last_segment_tx_at {
        Some(t) => ran_out(now, t, cfg.limits.t252_ack_waiting),
        None => !thrown_away(x) && aired(x) && cfg.limits.t252_ack_waiting == 0,
    }
}

/// The TL-SDU may go out: for the first time, or again within what the link allows. What is
/// asked for is bounded by three retransmissions, what is repeated for want of an answer by the
/// budget of the link.
pub open spec fn may_go(x: OutstandingView, l: AlLinkView, now: TdmaTime, cfg: LlcConfig) -> bool {
    &&& incomplete(x)
    &&& if asked_again(x) {
        x.retx_count < 3
    } else {
        x.sent_at is None || waited_out(x, now, cfg) && x.retx_count < effective_max_retx(l, cfg)
    }
}

/// The TL-SDU has used up what it may be sent.
pub open spec fn must_leave(x: OutstandingView, l: AlLinkView, now: TdmaTime, cfg: LlcConfig) -> bool {
    &&& incomplete(x)
    &&& if asked_again(x) {
        x.retx_count >= 3
    } else {
        x.sent_at is Some && waited_out(x, now, cfg) && x.retx_count >= effective_max_retx(l, cfg)
    }
}

proof fn lemma_due(x: OutstandingView, l: AlLinkView, now: TdmaTime, cfg: LlcConfig)
    ensures
        ({
            let a = sdu_action(clocked(x, now), effective_max_retx(l, cfg), now, cfg);
            &&& may_go(x, l, now, cfg) <==> a == SduAction::Send
            &&& must_leave(x, l, now, cfg) <==> a is Drop
            &&& a is Drop ==> a->Drop_0 == (if !asked_again(x) && effective_max_retx(l, cfg) == 0 {
                AlDeliveryOutcome::DroppedFireAndForget
            } else {
                AlDeliveryOutcome::DroppedRetxExhausted
            })
        }),
{
    let c = clocked(x, now);
    assert(c.has_unacked() <==> incomplete(x)) by {
        if incomplete(x) {
            let k = choose|k: int| 0 <= k < x.acked.len() && !#[trigger] x.acked[k];
            assert(!c.acked[k]);
        }
        if c.has_unacked() {
            let k = choose|k: int| 0 <= k < c.acked.len() && !#[trigger] c.acked[k];
            assert(!x.acked[k]);
        }
    }
    assert(thrown_away(x) == crate::llc::al_tick::any_discarded(x)) by {
        if thrown_away(x) {
            let k = choose|k: int|
                0 <= k < x.reporters.len() && !x.acked[k] && (#[trigger] x.reporters[k] matches Some(r)
                    && r.state == TxState::Discarded);
            assert(x.reporters[k]->0.state == TxState::Discarded);
        }
    }
    assert(aired(x) == (crate::llc::al_tick::all_on_air(x) && x.reporters.len() > 0));
}

/// What a tick leaves of the window of an established link.
proof fn lemma_window(l: AlLinkView, now: TdmaTime, cfg: LlcConfig, id: u64)
    requires
        l.phase == AlPhase::Established,
    ensures
        ({
            let pass = tx_pass(l, now, cfg, id, l.outstanding.len());
            let t = link_tick(l, now, cfg, id);
            &&& t.link.outstanding == crate::llc::al_link::without(pass.sdus, event_ns(pass.drops))
            &&& t.drops == pass.drops
            &&& t.msgs == pass.msgs + deferred_ack(l)
            &&& t.link.phase == AlPhase::Established
        }),
{
    let t = link_tick(l, now, cfg, id);
    assert(deferred_ack(transmit(l, now, cfg, id).link) == deferred_ack(l));
    assert(t.msgs =~= tx_pass(l, now, cfg, id, l.outstanding.len()).msgs + deferred_ack(l));
}

/// No other TL-SDU of the window has the N(S) of TL-SDU `j`.
pub open spec fn alone(s: Seq<OutstandingView>, j: int) -> bool {
    forall|i: int| 0 <= i < s.len() && i != j ==> (#[trigger] s[i]).n_s != s[j].n_s
}

proof fn lemma_in_filter(s: Seq<OutstandingView>, dropped: Seq<u8>, j: int)
    requires
        0 <= j < s.len(),
    ensures
        !dropped.contains(s[j].n_s) ==> crate::llc::al_link::without(s, dropped).contains(s[j]),
        dropped.contains(s[j].n_s) ==> forall|p: int|
            0 <= p < crate::llc::al_link::without(s, dropped).len() ==> (
            #[trigger] crate::llc::al_link::without(s, dropped)[p]).n_s != s[j].n_s,
{
    let keep = |x: OutstandingView| !dropped.contains(x.n_s);
    broadcast use vstd::seq_lib::group_filter_ensures;
    let t = crate::llc::al_link::without(s, dropped);
    assert(t == s.filter(keep));
    if !dropped.contains(s[j].n_s) {
        assert(keep(s[j]));
        s.lemma_filter_contains(keep, j);
    }
    assert forall|p: int| 0 <= p < t.len() && dropped.contains(s[j].n_s) implies (
    #[trigger] t[p]).n_s != s[j].n_s by {
        s.lemma_filter_pred(keep, p);
        assert(keep(t[p]));
    }
}

/// A TL-SDU of an established link that may go out goes out with the tick: its unconfirmed
/// segments are handed to the MAC, each once and in order, and no other of its segments. It
/// stays in the window, unless another with its N(S) has to leave.
pub proof fn law_due_sdu_goes_out(l: AlLinkView, now: TdmaTime, cfg: LlcConfig, id: u64, j: int)
    requires
        l.wf(),
        l.phase == AlPhase::Established,
        0 <= j < l.outstanding.len(),
        may_go(l.outstanding[j], l, now, cfg),
    ensures
        exists|y: OutstandingView, base: int|
            {
                &&& #[trigger] went_out(
                    link_tick(l, now, cfg, id).msgs,
                    l,
                    l.outstanding[j],
                    y,
                    now,
                    base,
                )
                &&& alone(l.outstanding, j) ==> link_tick(
                    l,
                    now,
                    cfg,
                    id,
                ).link.outstanding.contains(y)
            },
{
    let x = l.outstanding[j];
    let n = l.outstanding.len();
    let pass = tx_pass(l, now, cfg, id, n);
    let t = link_tick(l, now, cfg, id);
    lemma_due(x, l, now, cfg);
    lemma_pass_sends(l, now, cfg, id, n, j);
    lemma_pass_len(l, now, cfg, id, n);
    lemma_window(l, now, cfg, id);
    let c = clocked(x, now);
    let y = pass.sdus[j];
    let base = choose|base: int| went_out(pass.msgs, l, c, y, now, base);
    assert forall|k: int| 0 <= k < x.pdus.len() && !(#[trigger] x.acked[k]) implies hands_over(
        t.msgs[base + unconfirmed(x.acked, k)],
        l,
        LlcPduView::AlSegment(x.pdus[k]),
        y.reporters[k],
    ) && (y.reporters[k] matches Some(r) && r.state == TxState::Pending) by {
        lemma_count(x.acked, k, x.pdus.len() as int);
        assert(!c.acked[k]);
    }
    assert forall|k: int| 0 <= k < x.pdus.len() && #[trigger] x.acked[k] implies y.reporters[k]
        == x.reporters[k] by {
        assert(c.acked[k]);
    }
    assert(went_out(t.msgs, l, x, y, now, base));
    lemma_in_filter(pass.sdus, event_ns(pass.drops), j);
    if alone(l.outstanding, j) {
        let ns = event_ns(pass.drops);
        if ns.contains(x.n_s) {
            let i = choose|i: int| 0 <= i < ns.len() && ns[i] == x.n_s;
            let w = lemma_drop_from(l, now, cfg, id, n, i);
            assert(l.outstanding[w].n_s == x.n_s);
        }
    }
}

/// A TL-SDU of an established link that has used up what it may be sent leaves the window with
/// the tick, and its loss is reported: as a loss without a second try where the link allows none,
/// else as one after the last.
pub proof fn law_spent_sdu_leaves(l: AlLinkView, now: TdmaTime, cfg: LlcConfig, id: u64, j: int)
    requires
        l.phase == AlPhase::Established,
        0 <= j < l.outstanding.len(),
        must_leave(l.outstanding[j], l, now, cfg),
    ensures
        ({
            let x = l.outstanding[j];
            let t = link_tick(l, now, cfg, id);
            &&& forall|p: int|
                0 <= p < t.link.outstanding.len() ==> (#[trigger] t.link.outstanding[p]).n_s
                    != x.n_s
            &&& exists|i: int|
                {
                    &&& 0 <= i < t.drops.len()
                    &&& (#[trigger] t.drops[i]).n_s == x.n_s
                    &&& t.drops[i].ssi == l.key.ssi && t.drops[i].link_id == l.key.link_id
                        && t.drops[i].endpoint_id == l.key.endpoint_id && t.drops[i].n261
                        == l.key.n261
                    &&& t.drops[i].outcome == (if !asked_again(x) && effective_max_retx(l, cfg)
                        == 0 {
                        AlDeliveryOutcome::DroppedFireAndForget
                    } else {
                        AlDeliveryOutcome::DroppedRetxExhausted
                    })
                }
        }),
{
    let x = l.outstanding[j];
    let n = l.outstanding.len();
    let pass = tx_pass(l, now, cfg, id, n);
    lemma_due(x, l, now, cfg);
    lemma_pass_len(l, now, cfg, id, n);
    lemma_window(l, now, cfg, id);
    let i = lemma_drop_of(l, now, cfg, id, n, j);
    let ns = event_ns(pass.drops);
    assert(ns[i] == x.n_s);
    assert(ns.contains(x.n_s));
    lemma_in_filter(pass.sdus, ns, j);
    assert(link_tick(l, now, cfg, id).drops[i] == pass.drops[i]);
}

/// A TL-SDU of an established link that may not go out and need not leave stays in the window,
/// unless another with its N(S) has to leave. The wait for its acknowledgement begins once all
/// of its unconfirmed segments have been on the air.
pub proof fn law_waiting_sdu_stays(l: AlLinkView, now: TdmaTime, cfg: LlcConfig, id: u64, j: int)
    requires
        l.phase == AlPhase::Established,
        0 <= j < l.outstanding.len(),
        !may_go(l.outstanding[j], l, now, cfg),
        !must_leave(l.outstanding[j], l, now, cfg),
        incomplete(l.outstanding[j]),
        alone(l.outstanding, j),
    ensures
        ({
            let x = l.outstanding[j];
            let t = link_tick(l, now, cfg, id);
            t.link.outstanding.contains(
                (OutstandingView {
                    last_segment_tx_at: if x.last_segment_tx_at is None && aired(x) {
                        Some(now)
                    } else {
                        x.last_segment_tx_at
                    },
                    ..x
                }),
            )
        }),
{
    let x = l.outstanding[j];
    let n = l.outstanding.len();
    let pass = tx_pass(l, now, cfg, id, n);
    lemma_due(x, l, now, cfg);
    lemma_pass_len(l, now, cfg, id, n);
    lemma_window(l, now, cfg, id);
    lemma_in_filter(pass.sdus, event_ns(pass.drops), j);
    let ns = event_ns(pass.drops);
    if ns.contains(x.n_s) {
        let i = choose|i: int| 0 <= i < ns.len() && ns[i] == x.n_s;
        let w = lemma_drop_from(l, now, cfg, id, n, i);
        assert(l.outstanding[w].n_s == x.n_s);
    }
    assert(pass.sdus[j] == clocked(x, now));
}

/// The number `k` places behind `id`, counted round 2 to the power of 64.
pub open spec fn number_behind(id: u64, k: int) -> int {
    (id + k) % 0x1_0000_0000_0000_0000
}

/// Message `i` is a segment that goes out under the number `i` places behind `id`.
pub open spec fn numbered(msgs: Seq<SapMsgView>, id: u64, i: int) -> bool {
    &&& msgs[i].msg matches SapInnerView::TmaUnitdataReq(r)
    &&& r.pdu is AlSegment
    &&& r.tx_reporter matches Some(x)
    &&& x.id matches ReporterId::Llc(n)
    &&& n == number_behind(id, i)
}

proof fn lemma_number_step(id: u64, k: int, n: u64)
    requires
        k >= 0,
        n == number_behind(id, k),
    ensures
        crate::llc::al_tick::id_after(n) == number_behind(id, k + 1),
{
    let m: int = 0x1_0000_0000_0000_0000;
    let x = id + k;
    vstd::arithmetic::div_mod::lemma_fundamental_div_mod(x, m);
    vstd::arithmetic::div_mod::lemma_mod_bound(x, m);
    if n == u64::MAX {
        assert(x + 1 == m * (x / m + 1) + 0);
        vstd::arithmetic::div_mod::lemma_fundamental_div_mod_converse(x + 1, m, x / m + 1, 0);
    } else {
        assert(x + 1 == m * (x / m) + (n + 1));
        vstd::arithmetic::div_mod::lemma_fundamental_div_mod_converse(x + 1, m, x / m, n + 1);
    }
}

proof fn lemma_number_shift(id: u64, a: int, from: u64, b: int)
    requires
        a >= 0,
        b >= 0,
        from == number_behind(id, a),
    ensures
        number_behind(from, b) == number_behind(id, a + b),
{
    let m: int = 0x1_0000_0000_0000_0000;
    vstd::arithmetic::div_mod::lemma_add_mod_noop(id + a, b, m);
    vstd::arithmetic::div_mod::lemma_add_mod_noop(from as int, b, m);
    vstd::arithmetic::div_mod::lemma_small_mod(from as nat, m as nat);
}

proof fn lemma_segments_numbered(s: OutstandingView, l: AlLinkView, id: u64, n: nat, i: int)
    requires
        n <= s.reporters.len(),
    ensures
        ({
            let r = send_segments(s, l.route(), id, n);
            &&& r.next_id == number_behind(id, r.msgs.len() as int)
            &&& 0 <= i < r.msgs.len() ==> numbered(r.msgs, id, i)
        }),
    decreases n,
{
    if n == 0 {
        vstd::arithmetic::div_mod::lemma_small_mod(id as nat, 0x1_0000_0000_0000_0000nat);
    } else {
        let before = send_segments(s, l.route(), id, (n - 1) as nat);
        lemma_segments_numbered(s, l, id, (n - 1) as nat, i);
        lemma_number_step(id, before.msgs.len() as int, before.next_id);
    }
}

proof fn lemma_pass_numbered(l: AlLinkView, now: TdmaTime, cfg: LlcConfig, id: u64, n: nat, i: int)
    requires
        l.wf(),
        n <= l.outstanding.len(),
    ensures
        ({
            let r = tx_pass(l, now, cfg, id, n);
            &&& r.next_id == number_behind(id, r.msgs.len() as int)
            &&& 0 <= i < r.msgs.len() ==> numbered(r.msgs, id, i)
        }),
    decreases n,
{
    if n == 0 {
        vstd::arithmetic::div_mod::lemma_small_mod(id as nat, 0x1_0000_0000_0000_0000nat);
    } else {
        let before = tx_pass(l, now, cfg, id, (n - 1) as nat);
        let r = tx_pass(l, now, cfg, id, n);
        lemma_pass_numbered(l, now, cfg, id, (n - 1) as nat, i);
        let s = clocked(l.outstanding[n - 1], now);
        assert(l.outstanding[n - 1].wf());
        let k = before.msgs.len() as int;
        let out = send_segments(s, l.route(), before.next_id, s.pdus.len());
        lemma_segments_numbered(s, l, before.next_id, s.pdus.len(), i - k);
        lemma_number_shift(id, k, before.next_id, out.msgs.len() as int);
        if k <= i < r.msgs.len() {
            lemma_number_shift(id, k, before.next_id, i - k);
            assert(r.msgs[i] == out.msgs[i - k]);
        }
    }
}

/// The segments that an established link sends in a tick are numbered one after the other from
/// the given number on, and the numbers go on behind them: no two go out under the same.
pub proof fn law_segments_are_numbered(l: AlLinkView, now: TdmaTime, cfg: LlcConfig, id: u64, i: int)
    requires
        l.wf(),
        l.phase == AlPhase::Established,
    ensures
        ({
            let t = link_tick(l, now, cfg, id);
            let n = transmit(l, now, cfg, id).msgs.len();
            &&& n <= t.msgs.len()
            &&& t.next_id == number_behind(id, n as int)
            &&& 0 <= i < n ==> numbered(t.msgs, id, i)
        }),
{
    lemma_window(l, now, cfg, id);
    lemma_pass_numbered(l, now, cfg, id, l.outstanding.len(), i);
}

/// Two places less than 2 to the power of 64 apart have different numbers.
pub proof fn law_numbers_differ(id: u64, a: int, b: int)
    requires
        0 <= a < b,
        b - a < 0x1_0000_0000_0000_0000,
    ensures
        number_behind(id, a) != number_behind(id, b),
{
    let m: int = 0x1_0000_0000_0000_0000;
    let (x, y) = (id + a, id + b);
    vstd::arithmetic::div_mod::lemma_fundamental_div_mod(x, m);
    vstd::arithmetic::div_mod::lemma_fundamental_div_mod(y, m);
    if x % m == y % m {
        let d = y / m - x / m;
        assert(y - x == m * d) by {
            assert(m * (y / m) - m * (x / m) == m * d) by (nonlinear_arith)
                requires
                    d == y / m - x / m,
            ;
        }
        assert(d <= 0 || d >= 1);
        assert(d >= 1 ==> m * d >= m) by (nonlinear_arith)
            requires
                m > 0,
        ;
        assert(d <= 0 ==> m * d <= 0) by (nonlinear_arith)
            requires
                m > 0,
        ;
    }
}

/// A segment that an acknowledgement names as the oldest not received, and that was not
/// confirmed before, is among those that the next retransmission of its TL-SDU sends, whenever
/// that comes.
pub proof fn law_missing_segment_is_sent_again(
    st: LlcView,
    m: SapMsgView,
    ind: TmaIndView,
    b: AckBlockView,
    i: int,
    j: int,
    sr: u8,
    now: TdmaTime,
    id: u64,
)
    requires
        st.wf(),
        hands_up(m, ind),
        ind.pdu == Some(
            RxPduView::AlAck(AlAckView { kind: AlAckAlRnrKind::Ack, blocks: seq![b] }),
        ),
        link_of(st, ind, i),
        is_up(st.links[i]),
        b.ack_length is Segments,
        b.s_r == Some(SR::OldestNotReceived(sr)),
        oldest(st.links[i].outstanding, b.n_r, j),
        sr < st.links[i].outstanding[j].acked.len(),
        !st.links[i].outstanding[j].acked[sr as int],
        may_go(
            after_prim(st, m).links[i].outstanding[j],
            after_prim(st, m).links[i],
            now,
            st.config,
        ),
    ensures
        ({
            let l = after_prim(st, m).links[i];
            let out = link_tick(l, now, st.config, id).msgs;
            exists|p: int, r: Option<TxReporter>|
                0 <= p < out.len() && #[trigger] hands_over(
                    out[p],
                    st.links[i],
                    LlcPduView::AlSegment(st.links[i].outstanding[j].pdus[sr as int]),
                    r,
                )
        }),
{
    law_segment_report(st, m, ind, AlAckAlRnrKind::Ack, b, i, j, sr);
    let l = after_prim(st, m).links[i];
    let x = l.outstanding[j];
    assert(l.wf()) by {
        assert(st.links[i].wf());
        assert forall|k: int| 0 <= k < l.outstanding.len() implies (
        #[trigger] l.outstanding[k]).wf() by {
            assert(st.links[i].outstanding[k].wf());
        }
    }
    law_due_sdu_goes_out(l, now, st.config, id, j);
    let out = link_tick(l, now, st.config, id).msgs;
    let (y, base) = choose|y: OutstandingView, base: int|
        #[trigger] went_out(out, l, x, y, now, base);
    assert(!x.acked[sr as int]);
    assert(st.links[i].outstanding[j].wf()) by {
        assert(st.links[i].wf());
    }
    lemma_count(x.acked, sr as int, x.pdus.len() as int);
    let p = base + unconfirmed(x.acked, sr as int);
    assert(hands_over(
        out[p],
        st.links[i],
        LlcPduView::AlSegment(st.links[i].outstanding[j].pdus[sr as int]),
        y.reporters[sr as int],
    ));
}

// ---- the rest of a tick -------------------------------------------------------------------------

/// The peer's flow control ends when its timer runs out, and not before: a link that is stopped
/// sends no segment and keeps its window.
pub proof fn law_flow_control_times_out(l: AlLinkView, now: TdmaTime, cfg: LlcConfig, id: u64)
    requires
        l.phase == AlPhase::FlowControlled,
    ensures
        ({
            let t = link_tick(l, now, cfg, id);
            let over = l.t_rnr_start matches Some(s) && ran_out(
                now,
                s,
                cfg.limits.t272_not_ready_for_rx,
            );
            &&& over ==> t == link_tick(
                AlLinkView { phase: AlPhase::Established, t_rnr_start: None, ..l },
                now,
                cfg,
                id,
            )
            &&& !over ==> {
                &&& t.link.phase == AlPhase::FlowControlled && t.link.t_rnr_start == l.t_rnr_start
                &&& t.link.outstanding == l.outstanding
                &&& t.drops.len() == 0 && t.next_id == id
                &&& t.msgs.len() <= 1
                &&& t.msgs.len() == 1 ==> l.needs_deferred_ack && l.reassemblers.len() > 0
            }
        }),
{
    let est = AlLinkView { phase: AlPhase::Established, t_rnr_start: None, ..l };
    assert(transmit(est, now, cfg, id) == transmit(
        crate::llc::al_tick::after_t272(est, now, cfg),
        now,
        cfg,
        id,
    ));
}

/// The acknowledgement that a link put off goes out with the tick, behind its segments: one
/// AL-ACK with a block for each TL-SDU under reassembly, in order, that names the oldest segment
/// still missing. Afterwards nothing is put off. A link that put none off sends none.
pub proof fn law_put_off_acknowledgement(l: AlLinkView, now: TdmaTime, cfg: LlcConfig, id: u64)
    requires
        l.phase == AlPhase::Established,
    ensures
        ({
            let t = link_tick(l, now, cfg, id);
            let n = transmit(l, now, cfg, id).msgs.len();
            &&& !t.link.needs_deferred_ack
            &&& t.link.reassemblers == l.reassemblers
            &&& if l.needs_deferred_ack && l.reassemblers.len() > 0 {
                &&& t.msgs.len() == n + 1
                &&& exists|p: LlcPduView|
                    {
                        &&& #[trigger] hands_over(t.msgs.last(), l, p, None)
                        &&& p matches LlcPduView::AlAck(a)
                        &&& a.kind == AlAckAlRnrKind::Ack
                        &&& a.blocks.len() == l.reassemblers.len()
                        &&& forall|i: int|
                            0 <= i < a.blocks.len() ==> {
                                let b = #[trigger] a.blocks[i];
                                &&& b.n_r == l.reassemblers[i].n_s
                                &&& b.s_r == Some(
                                    SR::OldestNotReceived(l.reassemblers[i].next_expected_ss),
                                )
                                &&& b.ack_length == AckLength::Segments(1)
                                &&& b.ack_bitmap is None
                            }
                    }
            } else {
                t.msgs.len() == n
            }
        }),
{
    lemma_window(l, now, cfg, id);
    let t = link_tick(l, now, cfg, id);
    if l.needs_deferred_ack && l.reassemblers.len() > 0 {
        let p = LlcPduView::AlAck(
            crate::llc::pdus::AlAckView {
                kind: AlAckAlRnrKind::Ack,
                blocks: crate::llc::al_tick::ack_blocks(l.reassemblers),
            },
        );
        assert(t.msgs.last() == deferred_ack(l)[0]);
        assert(hands_over(t.msgs.last(), l, p, None));
    }
}

/// A TL-SDU received in part without acknowledgement is forgotten when its timer runs out, and
/// not before; the others stay in their order. The tick touches nothing else of what the link
/// received or agreed on, and no TL-SDU that waits for the window.
pub proof fn law_parts_are_forgotten_in_time(l: AlLinkView, now: TdmaTime, cfg: LlcConfig, id: u64)
    ensures
        ({
            let m = link_tick(l, now, cfg, id).link;
            &&& m.unack_started_at == l.unack_started_at.filter(
                |u: UnackSlot|
                    0 <= now.slot_index() - u.started_at.slot_index()
                        < cfg.limits.t271_not_ready_for_tx,
            )
            &&& same_agreement(l, m)
            &&& m.recently_delivered_ns == l.recently_delivered_ns
            &&& m.reassemblers == l.reassemblers
            &&& m.pending_sdus == l.pending_sdus && m.next_n_s == l.next_n_s
            &&& m.pending_setup_pdu == l.pending_setup_pdu && m.pending_reconnect_pdu
                == l.pending_reconnect_pdu
        }),
{
    let f = |u: UnackSlot|
        0 <= now.slot_index() - u.started_at.slot_index() < cfg.limits.t271_not_ready_for_tx;
    let g = |u: UnackSlot|
        !crate::tdma::elapsed_spec(now, u.started_at, cfg.limits.t271_not_ready_for_tx);
    assert(f =~= g);
}

/// A set-up that is not answered in time is proposed again, as before, until the retries are
/// used up; then the link falls back to idle. A timer that still runs changes nothing.
pub proof fn law_unanswered_set_up(l: AlLinkView, now: TdmaTime, cfg: LlcConfig, id: u64, start: TdmaTime)
    requires
        l.phase == AlPhase::SetupPending,
        l.t_setup_start == Some(start),
        !l.needs_deferred_ack,
    ensures
        ({
            let t = link_tick(l, now, cfg, id);
            let m = t.link;
            &&& !link_tick_removes(l, now, cfg)
            &&& m.outstanding == l.outstanding && t.drops.len() == 0
            &&& if !ran_out(now, start, cfg.limits.t261_setup_waiting) {
                &&& m.phase == AlPhase::SetupPending && t.msgs.len() == 0
                &&& same_procedures(l, m) && m.last_setup_echo == l.last_setup_echo
            } else if l.setup_retries < cfg.advanced_link.max_setup_retries {
                &&& m.phase == AlPhase::SetupPending
                &&& m.setup_retries == l.setup_retries + 1
                &&& m.t_setup_start == Some(now)
                &&& m.last_setup_echo == l.last_setup_echo
                &&& match l.pending_setup_pdu {
                    Some(p) => t.msgs.len() == 1 && hands_over(
                        t.msgs[0],
                        l,
                        LlcPduView::AlSetup(p),
                        None,
                    ),
                    None => t.msgs.len() == 0,
                }
            } else {
                &&& m.phase == AlPhase::Idle && t.msgs.len() == 0
                &&& m.t_setup_start is None && m.last_setup_echo is None
                &&& m.setup_retries == l.setup_retries
            }
        }),
{
}

/// A disconnection that is not answered in time is announced again until the retries are used
/// up; then the link is removed. A timer that still runs changes nothing.
pub proof fn law_unanswered_disconnection(
    l: AlLinkView,
    now: TdmaTime,
    cfg: LlcConfig,
    id: u64,
    start: TdmaTime,
)
    requires
        l.phase == AlPhase::DisconnectPending,
        l.t_disc_start == Some(start),
        !l.needs_deferred_ack,
    ensures
        ({
            let t = link_tick(l, now, cfg, id);
            let m = t.link;
            let over = ran_out(now, start, cfg.limits.t263_disconnect_waiting);
            let again = over && l.disc_retries < cfg.advanced_link.max_disc_retries;
            &&& link_tick_removes(l, now, cfg) <==> over && !again
            &&& m.phase == AlPhase::DisconnectPending
            &&& m.outstanding == l.outstanding && t.drops.len() == 0
            &&& !again ==> t.msgs.len() == 0
            &&& !over ==> same_procedures(l, m)
            &&& again ==> {
                &&& m.disc_retries == l.disc_retries + 1 && m.t_disc_start == Some(now)
                &&& t.msgs.len() == 1
                &&& exists|p: LlcPduView|
                    {
                        &&& #[trigger] hands_over(t.msgs[0], l, p, None)
                        &&& p matches LlcPduView::AlDisc(d)
                        &&& d.advanced_link_service == l.service
                        &&& d.advanced_link_number_n261 == l.key.n261
                        &&& d.report == AlDiscCause::Success
                    }
            }
        }),
{
    let t = link_tick(l, now, cfg, id);
    if ran_out(now, start, cfg.limits.t263_disconnect_waiting) && l.disc_retries
        < cfg.advanced_link.max_disc_retries {
        let p = LlcPduView::AlDisc(
            crate::llc::pdus::AlDisc {
                advanced_link_service: l.service,
                advanced_link_number_n261: l.key.n261,
                report: AlDiscCause::Success,
            },
        );
        assert(hands_over(t.msgs[0], l, p, None));
    }
}

/// A reconnection that is not answered in time is proposed again, as before, until the retries
/// are used up; then the link falls back to idle. A timer that still runs changes nothing.
pub proof fn law_unanswered_reconnection(
    l: AlLinkView,
    now: TdmaTime,
    cfg: LlcConfig,
    id: u64,
    start: TdmaTime,
)
    requires
        l.phase == AlPhase::ReconnectPending,
        l.t_reconnect_start == Some(start),
        !l.needs_deferred_ack,
    ensures
        ({
            let t = link_tick(l, now, cfg, id);
            let m = t.link;
            &&& !link_tick_removes(l, now, cfg)
            &&& m.outstanding == l.outstanding && t.drops.len() == 0
            &&& if !ran_out(now, start, cfg.limits.t265_reconnect_waiting) {
                &&& m.phase == AlPhase::ReconnectPending && t.msgs.len() == 0
                &&& same_procedures(l, m) && m.last_setup_echo == l.last_setup_echo
            } else if l.reconnect_retries < cfg.advanced_link.max_reconnect_retries {
                &&& m.phase == AlPhase::ReconnectPending
                &&& m.reconnect_retries == l.reconnect_retries + 1
                &&& m.t_reconnect_start == Some(now)
                &&& m.last_setup_echo == l.last_setup_echo
                &&& match l.pending_reconnect_pdu {
                    Some(p) => t.msgs.len() == 1 && hands_over(
                        t.msgs[0],
                        l,
                        LlcPduView::AlReconnect(p),
                        None,
                    ),
                    None => t.msgs.len() == 0,
                }
            } else {
                &&& m.phase == AlPhase::Idle && t.msgs.len() == 0
                &&& m.t_reconnect_start is None && m.last_setup_echo is None
                &&& m.reconnect_retries == l.reconnect_retries
            }
        }),
{
}

/// The tick leaves an idle link alone.
pub proof fn law_idle_link_rests(l: AlLinkView, now: TdmaTime, cfg: LlcConfig, id: u64)
    requires
        l.phase == AlPhase::Idle,
        !l.needs_deferred_ack,
    ensures
        ({
            let t = link_tick(l, now, cfg, id);
            &&& t.msgs.len() == 0 && t.drops.len() == 0 && t.next_id == id
            &&& t.link.phase == AlPhase::Idle && t.link.outstanding == l.outstanding
            &&& same_procedures(l, t.link) && t.link.last_setup_echo == l.last_setup_echo
            &&& !link_tick_removes(l, now, cfg)
        }),
{
}

// ---- the table -------------------------------------------------------------------------------

/// Among `msgs` stand those of `part`, one behind the other, from `base` on.
pub open spec fn stretch<T>(all: Seq<T>, part: Seq<T>, base: int) -> bool {
    &&& 0 <= base && base + part.len() <= all.len()
    &&& forall|k: int| 0 <= k < part.len() ==> #[trigger] all[base + k] == part[k]
}

/// The tick served link `i` under reporters numbered from `id` on: all that it sends and
/// reports is among what the tick sends and reports, and the link stays as it was left.
pub open spec fn served(st: LlcView, n: nat, i: int, id: u64, m: int, d: int) -> bool {
    let t = link_tick(st.links[i], st.dltime, st.config, id);
    let pass = tick_pass(st, n);
    &&& stretch(pass.msgs, t.msgs, m)
    &&& stretch(pass.drops, t.drops, d)
    &&& !link_tick_removes(st.links[i], st.dltime, st.config) ==> pass.links.contains(t.link)
}

/// A tick serves every link, each under the numbers where the links before it stopped.
pub proof fn law_tick_serves_every_link(st: LlcView, n: nat, i: int)
    requires
        0 <= i < n <= st.links.len(),
    ensures
        ({
            let id = tick_pass(st, i as nat).next_id;
            exists|m: int, d: int| #[trigger] served(st, n, i, id, m, d)
        }),
        tick_pass(st, 0).next_id == st.next_id,
        tick_pass(st, (i + 1) as nat).next_id == link_tick(
            st.links[i],
            st.dltime,
            st.config,
            tick_pass(st, i as nat).next_id,
        ).next_id,
        after_al_tick(st).next_id == tick_pass(st, st.links.len()).next_id,
    decreases n,
{
    let before = tick_pass(st, (n - 1) as nat);
    let pass = tick_pass(st, n);
    if i < n - 1 {
        law_tick_serves_every_link(st, (n - 1) as nat, i);
        let h: nat = (n - 1) as nat;
        let id = tick_pass(st, i as nat).next_id;
        let (m, d) = choose|m: int, d: int| served(st, h, i, id, m, d);
        let t = link_tick(st.links[i], st.dltime, st.config, id);
        assert forall|k: int| 0 <= k < t.msgs.len() implies #[trigger] pass.msgs[m + k]
            == t.msgs[k] by {
            assert(before.msgs[m + k] == t.msgs[k]);
        }
        assert forall|k: int| 0 <= k < t.drops.len() implies #[trigger] pass.drops[d + k]
            == t.drops[k] by {
            assert(before.drops[d + k] == t.drops[k]);
        }
        if !link_tick_removes(st.links[i], st.dltime, st.config) {
            let p = choose|p: int| 0 <= p < before.links.len() && before.links[p] == t.link;
            assert(pass.links[p] == t.link);
        }
        assert(served(st, n, i, id, m, d));
    } else {
        let t = link_tick(st.links[i], st.dltime, st.config, before.next_id);
        if !link_tick_removes(st.links[i], st.dltime, st.config) {
            assert(pass.links.last() == t.link);
        }
        assert(served(
            st,
            n,
            i,
            before.next_id,
            before.msgs.len() as int,
            before.drops.len() as int,
        ));
    }
}

/// Every link after a tick is one that was there before and was not given up.
pub proof fn law_tick_makes_no_link(st: LlcView, n: nat, p: int)
    requires
        n <= st.links.len(),
        0 <= p < tick_pass(st, n).links.len(),
    ensures
        exists|i: int|
            {
                &&& 0 <= i < n
                &&& (#[trigger] st.links[i]).key == tick_pass(st, n).links[p].key
                &&& !link_tick_removes(st.links[i], st.dltime, st.config)
            },
    decreases n,
{
    let before = tick_pass(st, (n - 1) as nat);
    if p < before.links.len() {
        law_tick_makes_no_link(st, (n - 1) as nat, p);
        let i = choose|i: int|
            {
                &&& 0 <= i < n - 1
                &&& (#[trigger] st.links[i]).key == before.links[p].key
                &&& !link_tick_removes(st.links[i], st.dltime, st.config)
            };
        assert(st.links[i].key == tick_pass(st, n).links[p].key);
    } else {
        assert(st.links[n - 1].key == tick_pass(st, n).links[p].key);
    }
}

/// The link is established and its window has room.
pub open spec fn has_room(l: AlLinkView) -> bool {
    l.phase == AlPhase::Established && l.outstanding.len() < l.effective_tx_sdu_window
}

/// How many TL-SDUs wait on those of the first `n` links that have room.
pub open spec fn waiting_before(links: Seq<AlLinkView>, n: int) -> nat
    decreases n,
{
    if n <= 0 {
        0
    } else if has_room(links[n - 1]) {
        waiting_before(links, n - 1) + links[n - 1].pending_sdus.len()
    } else {
        waiting_before(links, n - 1)
    }
}

proof fn lemma_flushed(links: Seq<AlLinkView>, n: nat, p: int, k: int)
    requires
        n <= links.len(),
    ensures
        flushed(links, n).len() == waiting_before(links, n as int),
        0 <= p < n && has_room(links[p]) && 0 <= k < links[p].pending_sdus.len() ==> {
            let at = waiting_before(links, p) + k;
            &&& at < flushed(links, n).len()
            &&& flushed(links, n)[at].key == links[p].key
            &&& flushed(links, n)[at].sdu == links[p].pending_sdus[k]
        },
    decreases n,
{
    if n > 0 {
        lemma_flushed(links, (n - 1) as nat, p, k);
    }
}

/// The TL-SDUs that wait on an established link whose window has room once the tick has served
/// it leave its waiting list, all of them and in their order, behind those of the links before
/// it. On any other link they go on waiting, and nothing else leaves a list.
pub proof fn law_waiting_sdus_are_released(st: LlcView, p: int, k: int)
    requires
        0 <= p < tick_pass(st, st.links.len()).links.len(),
    ensures
        ({
            let links = tick_pass(st, st.links.len()).links;
            let t = after_al_tick(st);
            let out = released(st);
            let l = links[p];
            &&& t.links.len() == links.len()
            &&& t.links[p] == (AlLinkView { pending_sdus: t.links[p].pending_sdus, ..l })
            &&& out.len() == waiting_before(links, links.len() as int)
            &&& !has_room(l) ==> t.links[p].pending_sdus == l.pending_sdus
            &&& has_room(l) ==> t.links[p].pending_sdus.len() == 0
            &&& has_room(l) && 0 <= k < l.pending_sdus.len() ==> {
                let at = waiting_before(links, p) + k;
                &&& at < out.len()
                &&& out[at].key == l.key && out[at].sdu == l.pending_sdus[k]
            }
            &&& t == (LlcView { links: t.links, next_id: t.next_id, ..st })
        }),
{
    let links = tick_pass(st, st.links.len()).links;
    lemma_flushed(links, links.len(), p, k);
}

} // verus!
