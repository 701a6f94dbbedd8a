//! What the advanced link does with each request, each acknowledgement and each tick, told by
//! what it leaves behind and what it sends.

use crate::al_events::AlDeliveryOutcome;
use crate::llc::al_link::{
    first_of, is_first, lemma_first_of, without, AlLinkKey, AlLinkView, AlPhase, OutstandingView,
};
use crate::llc::al_rx::{blocks_deliver, window_after_blocks};
use crate::llc::al_tx::{data_link, is_data_link};
use crate::llc::bl_conduct::hands_up;
use crate::llc::dispatch::{after_prim, prim_msgs};
use crate::llc::entity::LlcView;
use crate::llc::link_table::{find_link, has_key, lemma_link_pos, link_pos};
use crate::llc::pdus::{AckBlockView, AckLength, AlAckAlRnrKind, AlAckView, RxPduView, SR};
use crate::saps::{
    LlcPduView, Sap, SapInnerView, SapMsgView, TetraEntity, TmaIndView, TxParams, TxReporter,
};
use crate::tdma::TdmaTime;
use vstd::prelude::*;

verus! {

/// Link `i` is the first that the PDU's address has.
pub open spec fn link_of(st: LlcView, ind: TmaIndView, i: int) -> bool {
    &&& 0 <= i < st.links.len()
    &&& at(st.links[i], ind)
    &&& forall|j: int| 0 <= j < i ==> !at(#[trigger] st.links[j], ind)
}

/// The link belongs to the address of the PDU.
pub open spec fn at(l: AlLinkView, ind: TmaIndView) -> bool {
    l.key.ssi == ind.main_address.ssi && l.key.link_id == ind.link_id && l.key.endpoint_id
        == ind.endpoint_id
}

/// Data may flow on the link.
pub open spec fn is_up(l: AlLinkView) -> bool {
    l.phase == AlPhase::Established || l.phase == AlPhase::FlowControlled
}

/// Nothing but link `i` and the deliveries may have changed.
pub open spec fn only_link(st: LlcView, t: LlcView, i: int) -> bool {
    &&& t.links.len() == st.links.len()
    &&& forall|k: int| 0 <= k < st.links.len() && k != i ==> #[trigger] t.links[k] == st.links[k]
    &&& t == (LlcView { links: t.links, deliveries: t.deliveries, ..st })
}

/// What the link agreed on and where it goes stay.
pub open spec fn same_agreement(l: AlLinkView, m: AlLinkView) -> bool {
    &&& m.key == l.key && m.main_address == l.main_address && m.carrier_num == l.carrier_num
    &&& m.service == l.service && m.max_tl_sdu_octets == l.max_tl_sdu_octets
    &&& m.tx_window == l.tx_window && m.effective_tx_sdu_window == l.effective_tx_sdu_window
    &&& m.max_sdu_retx == l.max_sdu_retx && m.max_segment_retx == l.max_segment_retx
}

/// What the link has received stays.
pub open spec fn same_reception(l: AlLinkView, m: AlLinkView) -> bool {
    &&& m.reassemblers == l.reassemblers && m.unack_started_at == l.unack_started_at
    &&& m.recently_delivered_ns == l.recently_delivered_ns && m.needs_deferred_ack
        == l.needs_deferred_ack
}

/// The procedures of the link stay where they were.
pub open spec fn same_procedures(l: AlLinkView, m: AlLinkView) -> bool {
    &&& m.t_setup_start == l.t_setup_start && m.t_disc_start == l.t_disc_start
        && m.t_reconnect_start == l.t_reconnect_start
    &&& m.setup_retries == l.setup_retries && m.disc_retries == l.disc_retries
        && m.reconnect_retries == l.reconnect_retries
    &&& m.pending_setup_pdu == l.pending_setup_pdu && m.pending_reconnect_pdu
        == l.pending_reconnect_pdu
}

/// The options of plain signalling: none is set.
pub open spec fn plain(p: TxParams) -> bool {
    &&& p.req_handle == 0 && !p.stealing_permission && p.subscriber_class == 0
    &&& p.air_interface_encryption is None && p.stealing_repeats_flag is None
    &&& p.data_category is None && p.chan_alloc is None && !p.packet_data_flag
}

/// The link hands a PDU to the MAC as plain signalling, to its own address and on its own
/// carrier.
pub open spec fn hands_over(
    m: SapMsgView,
    l: AlLinkView,
    pdu: LlcPduView,
    reporter: Option<TxReporter>,
) -> bool {
    &&& m.sap == Sap::TmaSap && m.src == TetraEntity::Llc && m.dest == TetraEntity::Umac
    &&& m.msg matches SapInnerView::TmaUnitdataReq(r)
    &&& r.pdu == pdu
    &&& r.carrier_num == l.carrier_num
    &&& r.main_address == l.main_address
    &&& r.link_id == l.key.link_id && r.endpoint_id == l.key.endpoint_id
    &&& r.tx_reporter == reporter
    &&& plain(r.params)
}

pub(crate) proof fn lemma_link_of(st: LlcView, ind: TmaIndView, i: int)
    requires
        st.wf(),
        link_of(st, ind, i),
    ensures
        data_link(st.links, ind.main_address.ssi, ind.link_id, ind.endpoint_id) == Some(
            st.links[i].key,
        ),
        link_pos(st.links, st.links[i].key) == Some(i),
        find_link(st.links, st.links[i].key) == Some(st.links[i]),
        st.links[i].wf(),
{
    let (ssi, l, e) = (ind.main_address.ssi, ind.link_id, ind.endpoint_id);
    assert(is_data_link(st.links, ssi, l, e, i)) by {
        assert forall|j: int| 0 <= j < i implies !crate::llc::al_tx::at_address(
            #[trigger] st.links[j],
            ssi,
            l,
            e,
        ) by {
            assert(!at(st.links[j], ind));
        }
    }
    let c = choose|j: int| is_data_link(st.links, ssi, l, e, j);
    assert(is_data_link(st.links, ssi, l, e, c));
    if c < i {
        assert(!at(st.links[c], ind));
    }
    if i < c {
        assert(!crate::llc::al_tx::at_address(st.links[i], ssi, l, e));
    }
    assert(has_key(st.links, st.links[i].key, i));
    lemma_link_pos(st.links, st.links[i].key, i);
}

// ---- acknowledgements ------------------------------------------------------------------------

/// TL-SDU `j` is the oldest with this N(S).
pub open spec fn oldest(s: Seq<OutstandingView>, n_s: u8, j: int) -> bool {
    &&& 0 <= j < s.len()
    &&& s[j].n_s == n_s
    &&& forall|k: int| 0 <= k < j ==> (#[trigger] s[k]).n_s != n_s
}

proof fn lemma_oldest(s: Seq<OutstandingView>, n_s: u8, j: int)
    requires
        oldest(s, n_s, j),
    ensures
        first_of(s, n_s) == Some(j),
{
    assert(is_first(s, n_s, j));
    lemma_first_of(s, n_s, j);
}

/// A block that names segment `sr` as the oldest missing one tells of segment `k` that it has
/// arrived: it comes before `sr`, or behind it with its bit set.
pub open spec fn block_tells(b: AckBlockView, sr: u8, k: int) -> bool {
    ||| k < sr
    ||| k > sr && (b.ack_bitmap matches Some(bits) && k - sr - 1 < bits.len() && bits[k - sr - 1])
}

/// Of TL-SDU `j` only what is confirmed has changed, and the others are what they were.
pub open spec fn only_acked(s: Seq<OutstandingView>, t: Seq<OutstandingView>, j: int) -> bool {
    &&& t.len() == s.len()
    &&& forall|k: int| 0 <= k < s.len() && k != j ==> #[trigger] t[k] == s[k]
    &&& t[j] == (OutstandingView { acked: t[j].acked, ..s[j] })
    &&& t[j].acked.len() == s[j].acked.len()
}

/// Every TL-SDU of this N(S) has left the window; the others stay as they were, in their order.
pub open spec fn left_window(s: Seq<OutstandingView>, t: Seq<OutstandingView>, n_s: u8) -> bool {
    t == s.filter(|x: OutstandingView| x.n_s != n_s)
}

proof fn lemma_left(s: Seq<OutstandingView>, n_s: u8)
    ensures
        left_window(s, without(s, seq![n_s]), n_s),
    decreases s.len(),
{
    reveal(Seq::filter);
    assert(seq![n_s][0] == n_s);
    assert(forall|x: u8| seq![n_s].contains(x) <==> x == n_s);
    if s.len() > 0 {
        lemma_left(s.drop_last(), n_s);
    }
}

/// The outcomes that were recorded before, and the delivery of `n_s` if `yes`.
pub open spec fn delivery_reported(st: LlcView, t: LlcView, key: AlLinkKey, n_s: u8, yes: bool) -> bool {
    match (st.deliveries, t.deliveries) {
        (None, None) => true,
        (Some(d), Some(e)) => if yes {
            &&& e.len() == d.len() + 1
            &&& e.drop_last() == d
            &&& e.last().ssi == key.ssi && e.last().link_id == key.link_id && e.last().endpoint_id
                == key.endpoint_id && e.last().n261 == key.n261
            &&& e.last().n_s == n_s && e.last().outcome == AlDeliveryOutcome::Delivered
        } else {
            e == d
        },
        _ => false,
    }
}

/// The acknowledgement PDU stops the link or lets it go on, and leaves the rest of it alone
/// but for the window.
pub open spec fn flow(l: AlLinkView, m: AlLinkView, kind: AlAckAlRnrKind, now: TdmaTime) -> bool {
    &&& same_agreement(l, m) && same_reception(l, m) && same_procedures(l, m)
    &&& m.pending_sdus == l.pending_sdus && m.next_n_s == l.next_n_s
    &&& match kind {
        AlAckAlRnrKind::Rnr => m.phase == AlPhase::FlowControlled && m.t_rnr_start == Some(now)
            && m.last_setup_echo is None,
        AlAckAlRnrKind::Ack => m.phase == AlPhase::Established && m.last_setup_echo
            == l.last_setup_echo && (if l.phase == AlPhase::FlowControlled {
            m.t_rnr_start is None
        } else {
            m.t_rnr_start == l.t_rnr_start
        }),
    }
}

proof fn lemma_one_block(st: LlcView, m: SapMsgView, ind: TmaIndView, kind: AlAckAlRnrKind, b: AckBlockView, i: int)
    requires
        st.wf(),
        hands_up(m, ind),
        ind.pdu == Some(RxPduView::AlAck(AlAckView { kind, blocks: seq![b] })),
        link_of(st, ind, i),
        is_up(st.links[i]),
    ensures
        ({
            let t = after_prim(st, m);
            let l = st.links[i];
            &&& only_link(st, t, i)
            &&& flow(l, t.links[i], kind, st.dltime)
            &&& t.links[i].outstanding == crate::llc::al_link::window_after_block(
                l.outstanding,
                b,
            )
            &&& prim_msgs(st, m).len() == 0
            &&& match crate::llc::al_link::block_delivers(l.outstanding, b) {
                Some(n) => delivery_reported(st, t, l.key, n, true),
                None => delivery_reported(st, t, l.key, 0, false),
            }
        }),
{
    lemma_link_of(st, ind, i);
    reveal_with_fuel(window_after_blocks, 2);
    reveal_with_fuel(blocks_deliver, 2);
    let t = after_prim(st, m);
    let l = st.links[i];
    assert(seq![b][0] == b);
    if let Some(d) = st.deliveries {
        let e = t.deliveries->0;
        match crate::llc::al_link::block_delivers(l.outstanding, b) {
            Some(n) => {
                assert(e.drop_last() =~= d);
            },
            None => {
                assert(e =~= d);
            },
        }
    }
}

/// An acknowledgement that names segment `sr` of a TL-SDU as the oldest not received. A segment
/// is confirmed afterwards exactly if it was before, or comes before `sr`, or comes behind `sr`
/// with its bit set: so `sr` itself is confirmed only if it was before. While a segment is
/// unconfirmed the TL-SDU stays in the window, as it was; once all are confirmed it leaves the
/// window and is reported as delivered.
pub proof fn law_segment_report(
    st: LlcView,
    m: SapMsgView,
    ind: TmaIndView,
    kind: AlAckAlRnrKind,
    b: AckBlockView,
    i: int,
    j: int,
    sr: u8,
)
    requires
        st.wf(),
        hands_up(m, ind),
        ind.pdu == Some(RxPduView::AlAck(AlAckView { kind, blocks: seq![b] })),
        link_of(st, ind, i),
        is_up(st.links[i]),
        b.ack_length is Segments,
        b.s_r == Some(SR::OldestNotReceived(sr)),
        oldest(st.links[i].outstanding, b.n_r, j),
    ensures
        ({
            let t = after_prim(st, m);
            let s = st.links[i].outstanding;
            let u = t.links[i].outstanding;
            let x = s[j];
            let missing = exists|k: int|
                0 <= k < x.acked.len() && !(#[trigger] x.acked[k]) && !block_tells(b, sr, k);
            &&& only_link(st, t, i)
            &&& flow(st.links[i], t.links[i], kind, st.dltime)
            &&& delivery_reported(st, t, st.links[i].key, b.n_r, !missing)
            &&& missing ==> only_acked(s, u, j) && forall|k: int|
                0 <= k < x.acked.len() ==> (#[trigger] u[j].acked[k] <==> x.acked[k] || block_tells(
                    b,
                    sr,
                    k,
                ))
            &&& !missing ==> left_window(s, u, b.n_r)
            &&& sr < x.acked.len() && !x.acked[sr as int] ==> missing && !u[j].acked[sr as int]
        }),
{
    lemma_one_block(st, m, ind, kind, b, i);
    let s = st.links[i].outstanding;
    let x = s[j];
    lemma_oldest(s, b.n_r, j);
    lemma_left(s, b.n_r);
    let y = OutstandingView { acked: crate::llc::al_link::acked_after(x.acked, b), ..x };
    assert forall|k: int| 0 <= k < x.acked.len() implies (#[trigger] y.acked[k] <==> x.acked[k]
        || block_tells(b, sr, k)) by {}
    if exists|k: int| 0 <= k < x.acked.len() && !(#[trigger] x.acked[k]) && !block_tells(b, sr, k) {
        let k = choose|k: int|
            0 <= k < x.acked.len() && !(#[trigger] x.acked[k]) && !block_tells(b, sr, k);
        assert(!y.acked[k]);
        assert(y.has_unacked());
    } else {
        assert forall|k: int| 0 <= k < y.acked.len() implies #[trigger] y.acked[k] by {
            assert(x.acked[k] || block_tells(b, sr, k));
        }
    }
    if sr < x.acked.len() && !x.acked[sr as int] {
        assert(!block_tells(b, sr, sr as int));
        assert(!y.acked[sr as int]);
    }
}

/// An acknowledgement that says that all of a TL-SDU has arrived, by the whole or by its
/// segments, takes it out of the window and reports it as delivered.
pub proof fn law_whole_sdu_confirmed(
    st: LlcView,
    m: SapMsgView,
    ind: TmaIndView,
    kind: AlAckAlRnrKind,
    b: AckBlockView,
    i: int,
    j: int,
)
    requires
        st.wf(),
        hands_up(m, ind),
        ind.pdu == Some(RxPduView::AlAck(AlAckView { kind, blocks: seq![b] })),
        link_of(st, ind, i),
        is_up(st.links[i]),
        b.ack_length == AckLength::EntireSduReceived || b.ack_length is Segments && b.s_r == Some(
            SR::RestOfSduReceived,
        ),
        oldest(st.links[i].outstanding, b.n_r, j),
    ensures
        ({
            let t = after_prim(st, m);
            &&& only_link(st, t, i)
            &&& flow(st.links[i], t.links[i], kind, st.dltime)
            &&& left_window(st.links[i].outstanding, t.links[i].outstanding, b.n_r)
            &&& delivery_reported(st, t, st.links[i].key, b.n_r, true)
        }),
{
    lemma_one_block(st, m, ind, kind, b, i);
    lemma_oldest(st.links[i].outstanding, b.n_r, j);
    lemma_left(st.links[i].outstanding, b.n_r);
}

/// An acknowledgement that reports a failed check sequence asks for the whole TL-SDU again:
/// none of its segments counts as confirmed, and it goes out on the next tick. Nothing is
/// reported.
pub proof fn law_failed_check_asks_again(
    st: LlcView,
    m: SapMsgView,
    ind: TmaIndView,
    kind: AlAckAlRnrKind,
    b: AckBlockView,
    i: int,
    j: int,
)
    requires
        st.wf(),
        hands_up(m, ind),
        ind.pdu == Some(RxPduView::AlAck(AlAckView { kind, blocks: seq![b] })),
        link_of(st, ind, i),
        is_up(st.links[i]),
        b.ack_length == AckLength::SduFcsFailure,
        oldest(st.links[i].outstanding, b.n_r, j),
    ensures
        ({
            let t = after_prim(st, m);
            let s = st.links[i].outstanding;
            let u = t.links[i].outstanding;
            &&& only_link(st, t, i)
            &&& flow(st.links[i], t.links[i], kind, st.dltime)
            &&& delivery_reported(st, t, st.links[i].key, b.n_r, false)
            &&& u.len() == s.len()
            &&& forall|k: int| 0 <= k < s.len() && k != j ==> #[trigger] u[k] == s[k]
            &&& u[j] == (OutstandingView { acked: u[j].acked, force_retx: true, ..s[j] })
            &&& u[j].acked.len() == s[j].acked.len()
            &&& forall|k: int| 0 <= k < u[j].acked.len() ==> !#[trigger] u[j].acked[k]
        }),
{
    lemma_one_block(st, m, ind, kind, b, i);
    lemma_oldest(st.links[i].outstanding, b.n_r, j);
}

/// An acknowledgement of a TL-SDU that is not outstanding leaves the window as it is and
/// reports nothing. So does a block on segments that names none.
pub proof fn law_stray_acknowledgement(
    st: LlcView,
    m: SapMsgView,
    ind: TmaIndView,
    kind: AlAckAlRnrKind,
    b: AckBlockView,
    i: int,
)
    requires
        st.wf(),
        hands_up(m, ind),
        ind.pdu == Some(RxPduView::AlAck(AlAckView { kind, blocks: seq![b] })),
        link_of(st, ind, i),
        is_up(st.links[i]),
        forall|j: int|
            0 <= j < st.links[i].outstanding.len() ==> (
            #[trigger] st.links[i].outstanding[j]).n_s != b.n_r,
    ensures
        ({
            let t = after_prim(st, m);
            &&& only_link(st, t, i)
            &&& flow(st.links[i], t.links[i], kind, st.dltime)
            &&& t.links[i].outstanding == st.links[i].outstanding
            &&& delivery_reported(st, t, st.links[i].key, b.n_r, false)
        }),
{
    lemma_one_block(st, m, ind, kind, b, i);
    let s = st.links[i].outstanding;
    assert(first_of(s, b.n_r) is None) by {
        assert forall|j: int| !is_first(s, b.n_r, j) by {}
    }
    lemma_left(s, b.n_r);
    lemma_keep_all(s, b.n_r);
}

proof fn lemma_keep_all(s: Seq<OutstandingView>, n_s: u8)
    requires
        forall|j: int| 0 <= j < s.len() ==> (#[trigger] s[j]).n_s != n_s,
    ensures
        s.filter(|x: OutstandingView| x.n_s != n_s) == s,
    decreases s.len(),
{
    reveal(Seq::filter);
    if s.len() > 0 {
        let h = s.drop_last();
        assert forall|j: int| 0 <= j < h.len() implies (#[trigger] h[j]).n_s != n_s by {
            assert(s[j].n_s != n_s);
        }
        lemma_keep_all(h, n_s);
        assert(s.last().n_s != n_s) by {
            assert(s[s.len() - 1].n_s != n_s);
        }
        assert(h.push(s.last()) =~= s);
    }
}

/// An acknowledgement with several blocks is as good as one after the other: what the last
/// block does comes on top of what the others did.
pub proof fn law_blocks_one_after_the_other(
    st: LlcView,
    m: SapMsgView,
    ind: TmaIndView,
    kind: AlAckAlRnrKind,
    blocks: Seq<AckBlockView>,
    b: AckBlockView,
    m1: SapMsgView,
    m2: SapMsgView,
    i: int,
)
    requires
        st.wf(),
        hands_up(m, ind),
        ind.pdu == Some(RxPduView::AlAck(AlAckView { kind, blocks: blocks.push(b) })),
        hands_up(
            m1,
            TmaIndView { pdu: Some(RxPduView::AlAck(AlAckView { kind, blocks })), ..ind },
        ),
        hands_up(
            m2,
            TmaIndView {
                pdu: Some(RxPduView::AlAck(AlAckView { kind, blocks: seq![b] })),
                ..ind
            },
        ),
        link_of(st, ind, i),
        is_up(st.links[i]),
        blocks.len() > 0,
    ensures
        after_prim(st, m).links[i].outstanding == after_prim(
            after_prim(st, m1),
            m2,
        ).links[i].outstanding,
        after_prim(st, m).deliveries == after_prim(after_prim(st, m1), m2).deliveries,
        after_prim(st, m).links[i].phase == after_prim(after_prim(st, m1), m2).links[i].phase,
{
    let ind1 = TmaIndView { pdu: Some(RxPduView::AlAck(AlAckView { kind, blocks })), ..ind };
    let ind2 = TmaIndView {
        pdu: Some(RxPduView::AlAck(AlAckView { kind, blocks: seq![b] })),
        ..ind
    };
    lemma_link_of(st, ind, i);
    lemma_link_of(st, ind1, i);
    let l = st.links[i];
    let n = blocks.len();
    let all = blocks.push(b);
    lemma_prefix_blocks(l.outstanding, blocks, all, n);
    let st1 = after_prim(st, m1);
    assert(st1.links.len() == st.links.len());
    assert(forall|k: int| 0 <= k < st.links.len() ==> (#[trigger] st1.links[k]).key == st.links[k].key);
    assert forall|k: int| has_key(st1.links, l.key, k) implies k == i by {
        assert(has_key(st.links, l.key, k));
        if k < i {
            assert(st.links[k].key != st.links[i].key);
        }
        if i < k {
            assert(st.links[i].key != st.links[k].key);
        }
    }
    assert(has_key(st1.links, l.key, i));
    assert(find_link(st1.links, l.key) == Some(st1.links[i]));
    assert(data_link(st1.links, ind.main_address.ssi, ind.link_id, ind.endpoint_id) == Some(
        l.key,
    )) by {
        let (ssi, a, e) = (ind.main_address.ssi, ind.link_id, ind.endpoint_id);
        assert forall|j: int| 0 <= j < i implies !crate::llc::al_tx::at_address(
            #[trigger] st1.links[j],
            ssi,
            a,
            e,
        ) by {
            assert(!at(st.links[j], ind));
        }
        assert(is_data_link(st1.links, ssi, a, e, i));
        let c = choose|j: int| is_data_link(st1.links, ssi, a, e, j);
        assert(is_data_link(st1.links, ssi, a, e, c));
        if c < i {
            assert(!at(st.links[c], ind));
        }
        if i < c {
            assert(!crate::llc::al_tx::at_address(st1.links[i], ssi, a, e));
        }
    }
    reveal_with_fuel(window_after_blocks, 2);
    reveal_with_fuel(blocks_deliver, 2);
    assert(seq![b][0] == b);
    let w = window_after_blocks(l.outstanding, blocks, n);
    assert(st1.links[i].outstanding == w);
    if let Some(d) = st.deliveries {
        let one = after_prim(st, m).deliveries->0;
        let two = after_prim(st1, m2).deliveries->0;
        assert(one =~= two);
    }
}

proof fn lemma_prefix_blocks(s: Seq<OutstandingView>, blocks: Seq<AckBlockView>, all: Seq<AckBlockView>, n: nat)
    requires
        n <= blocks.len() <= all.len(),
        forall|k: int| 0 <= k < blocks.len() ==> #[trigger] all[k] == blocks[k],
    ensures
        window_after_blocks(s, all, n) == window_after_blocks(s, blocks, n),
        blocks_deliver(s, all, n) == blocks_deliver(s, blocks, n),
    decreases n,
{
    if n > 0 {
        lemma_prefix_blocks(s, blocks, all, (n - 1) as nat);
        assert(all[n - 1] == blocks[n - 1]);
    }
}

} // verus!
