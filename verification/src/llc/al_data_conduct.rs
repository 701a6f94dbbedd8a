//! What becomes of the data that an advanced link receives and is asked to send, told by what
//! each primitive leaves behind and what it sends.

use crate::llc::al_conduct::{at, hands_over, is_up, lemma_link_of, link_of, only_link};
use crate::llc::al_link::{
    ring_capacity, AlLinkKey, AlLinkView, AlPhase, OutstandingView, RxSlot, UnackSlot,
};
use crate::llc::al_rx::{has_slot, put_slot};
use crate::llc::al_tick_conduct::number_behind;
use crate::llc::al_tx::{
    enqueue_result, is_data_link, reassembly_of, req_key, segmenter_of, AlError, Reassembly,
};
use crate::llc::bl_conduct::hands_up;
use crate::llc::dispatch::{after_prim, after_report, prim_msgs};
use crate::llc::entity::LlcView;
use crate::llc::link_table::{find_link, has_key, lemma_link_pos, link_pos};
use crate::llc::pdus::{
    AckBlockView, AckLength, AlAckAlRnrKind, AlFeedView, AlUnackFeedView, RxPduView,
    SegmentationError, SR,
};
use crate::saps::{
    LlcPduView, ReporterId, Sap, SapInnerView, SapMsgView, TetraEntity, TlaIndAlView, TlaReqAlView,
    TmaIndView, TxReporter, TxState,
};
use vstd::prelude::*;

verus! {

/// The PDU is an AL-DATA or AL-FINAL that the reassembler made `feed` of.
pub open spec fn brings(m: SapMsgView, ind: TmaIndView, ar: bool, n_s: u8, feed: AlFeedView) -> bool {
    hands_up(m, ind) && ind.pdu == Some(RxPduView::AlData { ar, n_s, feed })
}

/// The link remembers the N(S) as delivered and is to deliver each one once.
pub open spec fn had(st: LlcView, l: AlLinkView, n_s: u8) -> bool {
    st.config.advanced_link.dedupe_completed_ns && exists|k: int|
        0 <= k < l.recently_delivered_ns.len() && l.recently_delivered_ns[k] == n_s
}

/// The indication tells of a TL-SDU of the link, whole and sound.
pub open spec fn tells_of(ind: TlaIndAlView, l: AlLinkView, sdu: Seq<bool>) -> bool {
    &&& ind.main_address == l.main_address
    &&& ind.link_id == l.key.link_id && ind.endpoint_id == l.key.endpoint_id
    &&& ind.al_link_number == l.key.n261
    &&& ind.tl_sdu == sdu
    &&& ind.subscriber_class == 0 && ind.fcs_ok && ind.air_interface_encryption is None
}

/// The message hands a confirmed TL-SDU up.
pub open spec fn delivers(m: SapMsgView, l: AlLinkView, sdu: Seq<bool>) -> bool {
    &&& m.sap == Sap::TlaSap && m.src == TetraEntity::Llc && m.dest == TetraEntity::Mle
    &&& m.msg matches SapInnerView::TlaTlDataIndAl(ind)
    &&& tells_of(ind, l, sdu)
}

/// The message hands an unconfirmed TL-SDU up.
pub open spec fn delivers_unconfirmed(m: SapMsgView, l: AlLinkView, sdu: Seq<bool>) -> bool {
    &&& m.sap == Sap::TlaSap && m.src == TetraEntity::Llc && m.dest == TetraEntity::Mle
    &&& m.msg matches SapInnerView::TlaTlUnitdataIndAl(ind)
    &&& tells_of(ind, l, sdu)
}

/// The message is an AL-ACK of the link with one block, about this N(S).
pub open spec fn acks(m: SapMsgView, l: AlLinkView, b: AckBlockView) -> bool {
    exists|p: LlcPduView|
        {
            &&& #[trigger] hands_over(m, l, p, None)
            &&& p matches LlcPduView::AlAck(a)
            &&& a.kind == AlAckAlRnrKind::Ack
            &&& a.blocks.len() == 1 && a.blocks[0] == b
        }
}

/// The block says that all of the TL-SDU has arrived.
pub open spec fn whole(b: AckBlockView, n_s: u8) -> bool {
    b.n_r == n_s && b.ack_length == AckLength::EntireSduReceived && b.s_r is None && b.ack_bitmap
        is None
}

/// The block says that the TL-SDU has failed its check and has to be sent again.
pub open spec fn spoilt(b: AckBlockView, n_s: u8) -> bool {
    b.n_r == n_s && b.ack_length == AckLength::SduFcsFailure && b.s_r is None && b.ack_bitmap
        is None
}

/// The block says that segment `ss` is the oldest not received.
pub open spec fn missing(b: AckBlockView, n_s: u8, ss: u8) -> bool {
    b.n_r == n_s && b.ack_length == AckLength::Segments(1) && b.s_r == Some(
        SR::OldestNotReceived(ss),
    ) && b.ack_bitmap is None
}

/// Only the reception of the link has changed.
pub open spec fn only_received(l: AlLinkView, k: AlLinkView) -> bool {
    k == (AlLinkView {
        reassemblers: k.reassemblers,
        recently_delivered_ns: k.recently_delivered_ns,
        needs_deferred_ack: k.needs_deferred_ack,
        ..l
    })
}

proof fn lemma_acks(m: SapMsgView, l: AlLinkView, b: AckBlockView)
    requires
        m == crate::llc::al_rx::ack_reply(l.route(), b),
    ensures
        acks(m, l, b),
{
    let p = LlcPduView::AlAck(
        crate::llc::pdus::AlAckView { kind: AlAckAlRnrKind::Ack, blocks: seq![b] },
    );
    assert(hands_over(m, l, p, None));
}

/// A TL-SDU that was delivered before is not delivered again and changes nothing. It is
/// confirmed once more if the peer asks for it.
pub proof fn law_repeated_sdu(
    st: LlcView,
    m: SapMsgView,
    ind: TmaIndView,
    ar: bool,
    n_s: u8,
    feed: AlFeedView,
    i: int,
)
    requires
        st.wf(),
        brings(m, ind, ar, n_s, feed),
        link_of(st, ind, i),
        had(st, st.links[i], n_s),
    ensures
        after_prim(st, m) == st,
        ar ==> prim_msgs(st, m).len() == 1 && exists|b: AckBlockView|
            #[trigger] acks(prim_msgs(st, m)[0], st.links[i], b) && whole(b, n_s),
        !ar ==> prim_msgs(st, m).len() == 0,
{
    lemma_link_of(st, ind, i);
    assert(st.links[i].recently_delivered_ns.contains(n_s));
    if ar {
        lemma_acks(prim_msgs(st, m)[0], st.links[i], AckBlockView::entire(n_s));
    }
}

/// Data for an address that has no link is dropped, whether confirmed or not, and so is an
/// acknowledgement.
pub proof fn law_data_for_no_link(st: LlcView, m: SapMsgView, ind: TmaIndView, pdu: RxPduView)
    requires
        hands_up(m, ind),
        ind.pdu == Some(pdu),
        pdu is AlData || pdu is AlUdata || pdu is AlAck,
        forall|i: int| 0 <= i < st.links.len() ==> !at(#[trigger] st.links[i], ind),
    ensures
        after_prim(st, m) == st,
        prim_msgs(st, m).len() == 0,
{
    let (ssi, l, e) = (ind.main_address.ssi, ind.link_id, ind.endpoint_id);
    assert forall|i: int| !is_data_link(st.links, ssi, l, e, i) by {
        if is_data_link(st.links, ssi, l, e, i) {
            assert(!at(st.links[i], ind));
        }
    }
}

/// An acknowledgement for a link that is not up is dropped.
pub proof fn law_acknowledgement_off_the_link(st: LlcView, m: SapMsgView, ind: TmaIndView, i: int)
    requires
        st.wf(),
        hands_up(m, ind),
        ind.pdu matches Some(p) && p is AlAck,
        link_of(st, ind, i),
        !is_up(st.links[i]),
    ensures
        after_prim(st, m) == st,
        prim_msgs(st, m).len() == 0,
{
    lemma_link_of(st, ind, i);
}

/// Data for a link that is not up is dropped.
pub proof fn law_data_off_the_link(
    st: LlcView,
    m: SapMsgView,
    ind: TmaIndView,
    ar: bool,
    n_s: u8,
    feed: AlFeedView,
    i: int,
)
    requires
        st.wf(),
        brings(m, ind, ar, n_s, feed),
        link_of(st, ind, i),
        !is_up(st.links[i]),
        !had(st, st.links[i], n_s),
    ensures
        after_prim(st, m) == st,
        prim_msgs(st, m).len() == 0,
{
    lemma_link_of(st, ind, i);
    if st.links[i].recently_delivered_ns.contains(n_s) {
        let k = choose|k: int|
            0 <= k < st.links[i].recently_delivered_ns.len()
                && st.links[i].recently_delivered_ns[k] == n_s;
        assert(st.links[i].recently_delivered_ns[k] == n_s);
    }
}

proof fn lemma_new(st: LlcView, l: AlLinkView, n_s: u8)
    requires
        !had(st, l, n_s),
        st.config.advanced_link.dedupe_completed_ns,
    ensures
        !l.recently_delivered_ns.contains(n_s),
{
    if l.recently_delivered_ns.contains(n_s) {
        let k = choose|k: int|
            0 <= k < l.recently_delivered_ns.len() && l.recently_delivered_ns[k] == n_s;
        assert(l.recently_delivered_ns[k] == n_s);
    }
}

/// The last segment of a sound TL-SDU: the TL-SDU is handed up, whole, and then confirmed. It is
/// no longer under reassembly, the others are, and where each is to be delivered once its N(S) is
/// the last of those remembered, of which the oldest may have been forgotten.
pub proof fn law_sdu_completed(
    st: LlcView,
    m: SapMsgView,
    ind: TmaIndView,
    ar: bool,
    n_s: u8,
    sdu: Seq<bool>,
    i: int,
)
    requires
        st.wf(),
        brings(m, ind, ar, n_s, AlFeedView::Complete { sdu }),
        link_of(st, ind, i),
        is_up(st.links[i]),
        !had(st, st.links[i], n_s),
    ensures
        ({
            let t = after_prim(st, m);
            let (l, k) = (st.links[i], t.links[i]);
            let msgs = prim_msgs(st, m);
            &&& only_link(st, t, i) && t.deliveries == st.deliveries
            &&& only_received(l, k) && k.needs_deferred_ack == l.needs_deferred_ack
            &&& k.reassemblers == l.reassemblers.filter(|x: RxSlot| x.n_s != n_s)
            &&& if st.config.advanced_link.dedupe_completed_ns {
                remembered(l, k, n_s)
            } else {
                k.recently_delivered_ns == l.recently_delivered_ns
            }
            &&& msgs.len() == 2
            &&& delivers(msgs[0], l, sdu)
            &&& exists|b: AckBlockView| #[trigger] acks(msgs[1], l, b) && whole(b, n_s)
        }),
{
    lemma_link_of(st, ind, i);
    let l = st.links[i];
    if st.config.advanced_link.dedupe_completed_ns {
        lemma_new(st, l, n_s);
        let ring = l.recently_delivered_ns;
        lemma_absent(ring, n_s);
        let k = after_prim(st, m).links[i];
        let room = ring_capacity(l.tx_window);
        let r = ring.push(n_s);
        assert(k.recently_delivered_ns == if r.len() > room {
            r.skip(r.len() - room)
        } else {
            r
        });
        if ring.len() < room {
            assert(k.recently_delivered_ns.drop_last() =~= ring);
        } else {
            assert(k.recently_delivered_ns.last() == n_s);
            assert(k.recently_delivered_ns.drop_last() =~= ring.skip(ring.len() + 1 - room));
        }
        assert(remembered(l, k, n_s));
    }
    lemma_acks(prim_msgs(st, m)[1], l, AckBlockView::entire(n_s));
}

/// The N(S) is the last of those that the link remembers; before it stand those remembered
/// before, without the oldest if there was no room for it.
pub open spec fn remembered(l: AlLinkView, k: AlLinkView, n_s: u8) -> bool {
    let room = if l.tx_window == 0 {
        1int
    } else {
        l.tx_window as int
    };
    let before = l.recently_delivered_ns;
    &&& k.recently_delivered_ns.len() > 0 && k.recently_delivered_ns.last() == n_s
    &&& k.recently_delivered_ns.drop_last() == if before.len() < room {
        before
    } else {
        before.skip(before.len() + 1 - room)
    }
}

proof fn lemma_absent(ring: Seq<u8>, n_s: u8)
    requires
        !ring.contains(n_s),
    ensures
        crate::llc::al_rx::drop_octet(ring, n_s) == ring,
    decreases ring.len(),
{
    reveal(Seq::filter);
    if ring.len() > 0 {
        let h = ring.drop_last();
        assert(!h.contains(n_s)) by {
            if h.contains(n_s) {
                let k = choose|k: int| 0 <= k < h.len() && h[k] == n_s;
                assert(ring[k] == n_s);
            }
        }
        lemma_absent(h, n_s);
        assert(ring.last() != n_s) by {
            assert(ring[ring.len() - 1] == ring.last());
        }
        assert(h.push(ring.last()) =~= ring);
    }
}

/// The last segment of a TL-SDU that fails its check: nothing is handed up, the TL-SDU is no
/// longer under reassembly, and the peer is told to send it again.
pub proof fn law_sdu_spoilt(
    st: LlcView,
    m: SapMsgView,
    ind: TmaIndView,
    ar: bool,
    n_s: u8,
    i: int,
)
    requires
        st.wf(),
        brings(m, ind, ar, n_s, AlFeedView::FcsFailure),
        link_of(st, ind, i),
        is_up(st.links[i]),
        !had(st, st.links[i], n_s),
    ensures
        ({
            let t = after_prim(st, m);
            let (l, k) = (st.links[i], t.links[i]);
            let msgs = prim_msgs(st, m);
            &&& only_link(st, t, i) && t.deliveries == st.deliveries
            &&& only_received(l, k) && k.needs_deferred_ack == l.needs_deferred_ack
            &&& k.recently_delivered_ns == l.recently_delivered_ns
            &&& k.reassemblers == l.reassemblers.filter(|x: RxSlot| x.n_s != n_s)
            &&& msgs.len() == 1
            &&& exists|b: AckBlockView| #[trigger] acks(msgs[0], l, b) && spoilt(b, n_s)
        }),
{
    lemma_link_of(st, ind, i);
    if st.config.advanced_link.dedupe_completed_ns {
        lemma_new(st, st.links[i], n_s);
    }
    lemma_acks(prim_msgs(st, m)[0], st.links[i], AckBlockView::fcs_failure(n_s));
}

/// The TL-SDU with this N(S) is under reassembly and next expects segment `ss`; the others are
/// where they were.
pub open spec fn expects(s: Seq<RxSlot>, t: Seq<RxSlot>, n_s: u8, ss: u8) -> bool {
    &&& s.len() <= t.len() <= s.len() + 1
    &&& forall|k: int|
        0 <= k < s.len() ==> #[trigger] t[k] == if s[k].n_s == n_s {
            RxSlot { n_s, next_expected_ss: ss }
        } else {
            s[k]
        }
    &&& t.len() == s.len() <==> exists|k: int| 0 <= k < s.len() && (#[trigger] s[k]).n_s == n_s
    &&& t.len() == s.len() + 1 ==> t.last() == (RxSlot { n_s, next_expected_ss: ss })
}

proof fn lemma_put_slot(s: Seq<RxSlot>, n_s: u8, ss: u8)
    ensures
        expects(s, put_slot(s, RxSlot { n_s, next_expected_ss: ss }), n_s, ss),
{
    let slot = RxSlot { n_s, next_expected_ss: ss };
    let t = put_slot(s, slot);
    if has_slot(s, n_s) {
        let k = choose|k: int| 0 <= k < s.len() && (#[trigger] s[k]).n_s == n_s;
        assert(s[k].n_s == n_s);
    } else {
        assert forall|k: int| 0 <= k < s.len() implies #[trigger] t[k] == if s[k].n_s == n_s {
            slot
        } else {
            s[k]
        } by {
            assert(s[k].n_s != n_s);
        }
    }
}

/// A segment of a TL-SDU that lacks others: nothing is handed up, and the link knows which
/// segment comes next. The peer is told at once if it asks, else the acknowledgement is put off.
pub proof fn law_sdu_lacks_segments(
    st: LlcView,
    m: SapMsgView,
    ind: TmaIndView,
    ar: bool,
    n_s: u8,
    ss: u8,
    i: int,
)
    requires
        st.wf(),
        brings(m, ind, ar, n_s, AlFeedView::NeedMore { next_expected_ss: ss }),
        link_of(st, ind, i),
        is_up(st.links[i]),
        !had(st, st.links[i], n_s),
    ensures
        ({
            let t = after_prim(st, m);
            let (l, k) = (st.links[i], t.links[i]);
            let msgs = prim_msgs(st, m);
            &&& only_link(st, t, i) && t.deliveries == st.deliveries
            &&& only_received(l, k) && k.recently_delivered_ns == l.recently_delivered_ns
            &&& expects(l.reassemblers, k.reassemblers, n_s, ss)
            &&& k.needs_deferred_ack <==> l.needs_deferred_ack || !ar
            &&& ar ==> msgs.len() == 1 && exists|b: AckBlockView|
                #[trigger] acks(msgs[0], l, b) && missing(b, n_s, ss)
            &&& !ar ==> msgs.len() == 0
        }),
{
    lemma_link_of(st, ind, i);
    if st.config.advanced_link.dedupe_completed_ns {
        lemma_new(st, st.links[i], n_s);
    }
    lemma_put_slot(st.links[i].reassemblers, n_s, ss);
    if ar {
        lemma_acks(prim_msgs(st, m)[0], st.links[i], AckBlockView::cumulative(n_s, ss));
    }
}

/// A segment that the reassembler could not use: nothing is handed up or answered, and the link
/// still knows which segment comes next.
pub proof fn law_segment_unusable(
    st: LlcView,
    m: SapMsgView,
    ind: TmaIndView,
    ar: bool,
    n_s: u8,
    ss: u8,
    i: int,
)
    requires
        st.wf(),
        brings(m, ind, ar, n_s, AlFeedView::Error { next_expected_ss: ss }),
        link_of(st, ind, i),
        is_up(st.links[i]),
        !had(st, st.links[i], n_s),
    ensures
        ({
            let t = after_prim(st, m);
            let (l, k) = (st.links[i], t.links[i]);
            &&& only_link(st, t, i) && t.deliveries == st.deliveries
            &&& only_received(l, k) && k.recently_delivered_ns == l.recently_delivered_ns
            &&& expects(l.reassemblers, k.reassemblers, n_s, ss)
            &&& k.needs_deferred_ack == l.needs_deferred_ack
            &&& prim_msgs(st, m).len() == 0
        }),
{
    lemma_link_of(st, ind, i);
    if st.config.advanced_link.dedupe_completed_ns {
        lemma_new(st, st.links[i], n_s);
    }
    lemma_put_slot(st.links[i].reassemblers, n_s, ss);
}

/// A segment is worth reassembling exactly if it would not be dropped: its address has a link,
/// the link is up, and the TL-SDU was not delivered before. The TL-SDU is gone on with if it is
/// under reassembly, and begun otherwise.
pub proof fn law_what_is_reassembled(st: LlcView, ind: TmaIndView, n_s: u8, i: int)
    requires
        st.wf(),
        link_of(st, ind, i),
    ensures
        ({
            let r = reassembly_of(
                st,
                ind.main_address.ssi,
                ind.link_id,
                ind.endpoint_id,
                n_s,
            );
            let l = st.links[i];
            let begun = exists|k: int|
                0 <= k < l.reassemblers.len() && (#[trigger] l.reassemblers[k]).n_s == n_s;
            &&& r == Reassembly::Skip <==> !is_up(l) || had(st, l, n_s)
            &&& r == Reassembly::Continue <==> is_up(l) && !had(st, l, n_s) && begun
        }),
{
    lemma_link_of(st, ind, i);
    let l = st.links[i];
    if had(st, l, n_s) {
        assert(l.recently_delivered_ns.contains(n_s));
    } else if st.config.advanced_link.dedupe_completed_ns {
        lemma_new(st, l, n_s);
    }
}

/// A segment for an address that has no link is not worth reassembling.
pub proof fn law_nothing_to_reassemble(st: LlcView, ind: TmaIndView, n_s: u8)
    requires
        forall|i: int| 0 <= i < st.links.len() ==> !at(#[trigger] st.links[i], ind),
    ensures
        reassembly_of(st, ind.main_address.ssi, ind.link_id, ind.endpoint_id, n_s)
            == Reassembly::Skip,
{
    let (ssi, l, e) = (ind.main_address.ssi, ind.link_id, ind.endpoint_id);
    assert forall|i: int| !is_data_link(st.links, ssi, l, e, i) by {
        if is_data_link(st.links, ssi, l, e, i) {
            assert(!at(st.links[i], ind));
        }
    }
}

/// What an AL-UDATA or AL-UFINAL leads to on an established link: a whole TL-SDU is handed up
/// and nothing is ever confirmed. The lifetime of a TL-SDU counts from its first segment and ends
/// with anything but a segment that lacks others.
pub proof fn law_unconfirmed_segment(
    st: LlcView,
    m: SapMsgView,
    ind: TmaIndView,
    n_s: u8,
    feed: AlUnackFeedView,
    i: int,
)
    requires
        st.wf(),
        hands_up(m, ind),
        ind.pdu == Some(RxPduView::AlUdata { n_s, unack_feed: feed }),
        link_of(st, ind, i),
    ensures
        ({
            let t = after_prim(st, m);
            let (l, k) = (st.links[i], t.links[i]);
            let msgs = prim_msgs(st, m);
            let up = l.phase == AlPhase::Established;
            let running = exists|j: int|
                0 <= j < l.unack_started_at.len() && (#[trigger] l.unack_started_at[j]).n_s == n_s;
            &&& only_link(st, t, i) && t.deliveries == st.deliveries
            &&& k == (AlLinkView { unack_started_at: k.unack_started_at, ..l })
            &&& !up || feed is NeedMore && running ==> k.unack_started_at == l.unack_started_at
            &&& up && feed is NeedMore && !running ==> {
                &&& k.unack_started_at.len() == l.unack_started_at.len() + 1
                &&& k.unack_started_at.drop_last() == l.unack_started_at
                &&& k.unack_started_at.last().n_s == n_s
                &&& k.unack_started_at.last().started_at == st.dltime
            }
            &&& up && !(feed is NeedMore) ==> k.unack_started_at == l.unack_started_at.filter(
                |x: UnackSlot| x.n_s != n_s,
            )
            &&& match feed {
                AlUnackFeedView::Complete { sdu } => if up {
                    msgs.len() == 1 && delivers_unconfirmed(msgs[0], l, sdu)
                } else {
                    msgs.len() == 0
                },
                _ => msgs.len() == 0,
            }
        }),
{
    lemma_link_of(st, ind, i);
    let l = st.links[i];
    let k = after_prim(st, m).links[i];
    if l.phase == AlPhase::Established && feed is NeedMore && !crate::llc::al_rx::has_unack_slot(
        l.unack_started_at,
        n_s,
    ) {
        assert(k.unack_started_at.drop_last() =~= l.unack_started_at);
    }
}

// ---- requests --------------------------------------------------------------------------------

/// The primitive asks for a TL-SDU to be sent on an advanced link.
pub open spec fn asks_al(m: SapMsgView, p: TlaReqAlView) -> bool {
    m.sap == Sap::TlaSap && m.msg == SapInnerView::TlaTlDataReqAl(p)
}

/// Link `i` is the one that the request is for.
pub open spec fn meant(st: LlcView, p: TlaReqAlView, i: int) -> bool {
    &&& 0 <= i < st.links.len()
    &&& st.links[i].key.ssi == p.main_address.ssi
    &&& st.links[i].key.link_id == p.link_id && st.links[i].key.endpoint_id == p.endpoint_id
    &&& st.links[i].key.n261 == p.al_link_number
}

proof fn lemma_meant(st: LlcView, p: TlaReqAlView, i: int)
    requires
        st.wf(),
        meant(st, p, i),
    ensures
        req_key(p) == st.links[i].key,
        link_pos(st.links, req_key(p)) == Some(i),
        find_link(st.links, req_key(p)) == Some(st.links[i]),
        st.links[i].wf(),
{
    assert(has_key(st.links, req_key(p), i));
    lemma_link_pos(st.links, req_key(p), i);
}

/// A request that cannot be served changes nothing: its link is not up, its TL-SDU is longer
/// than was agreed on, or there is room for it and it could not be cut.
pub proof fn law_request_not_served(st: LlcView, m: SapMsgView, p: TlaReqAlView, i: int)
    requires
        st.wf(),
        asks_al(m, p),
        meant(st, p, i),
        !is_up(st.links[i]) || p.tl_sdu.len() > st.links[i].max_tl_sdu_octets || p.segments is Err
            && st.links[i].outstanding.len() < st.links[i].effective_tx_sdu_window,
    ensures
        after_prim(st, m) == st,
        prim_msgs(st, m).len() == 0,
{
    lemma_meant(st, p, i);
}

/// A request for a link that is not known changes nothing.
pub proof fn law_request_for_no_link(st: LlcView, m: SapMsgView, p: TlaReqAlView)
    requires
        asks_al(m, p),
        forall|i: int| !#[trigger] meant(st, p, i),
    ensures
        after_prim(st, m) == st,
        prim_msgs(st, m).len() == 0,
{
    assert forall|i: int| !has_key(st.links, req_key(p), i) by {
        assert(!meant(st, p, i));
    }
}

/// A TL-SDU for which the window has no room waits, behind those that wait already, and is not
/// sent yet.
pub proof fn law_request_waits(st: LlcView, m: SapMsgView, p: TlaReqAlView, i: int)
    requires
        st.wf(),
        asks_al(m, p),
        meant(st, p, i),
        is_up(st.links[i]),
        p.tl_sdu.len() <= st.links[i].max_tl_sdu_octets,
        st.links[i].outstanding.len() >= st.links[i].effective_tx_sdu_window,
    ensures
        ({
            let t = after_prim(st, m);
            let (l, k) = (st.links[i], t.links[i]);
            &&& only_link(st, t, i) && t.deliveries == st.deliveries
            &&& k == (AlLinkView { pending_sdus: k.pending_sdus, ..l })
            &&& k.pending_sdus.len() == l.pending_sdus.len() + 1
            &&& k.pending_sdus.drop_last() == l.pending_sdus
            &&& k.pending_sdus.last() == p.tl_sdu
            &&& prim_msgs(st, m).len() == 0
        }),
{
    lemma_meant(st, p, i);
    let k = after_prim(st, m).links[i];
    assert(k.pending_sdus.drop_last() =~= st.links[i].pending_sdus);
}

/// The N(S) that follows another: one more, and zero after the last of the window.
pub open spec fn next_number(a: u8, b: u8, tx_window: u8) -> bool {
    if a < tx_window {
        b == a + 1
    } else {
        b == 0
    }
}

proof fn lemma_next_number(a: u8, w: u8)
    requires
        a <= w,
    ensures
        next_number(a, crate::llc::al_tx::n_s_after(a, w), w),
{
    if a < w {
        assert((a + 1) % 256 == a + 1);
        vstd::arithmetic::div_mod::lemma_small_mod((a + 1) as nat, (w + 1) as nat);
    } else if a < 255 {
        assert((a + 1) % 256 == a + 1);
        vstd::arithmetic::div_mod::lemma_mod_self_0(w + 1);
    } else {
        assert((a + 1) % 256 == 0);
        vstd::arithmetic::div_mod::lemma_small_mod(0nat, (w + 1) as nat);
    }
}

/// A TL-SDU for which the window has room enters it as the newest, cut into its segments, under
/// the next N(S), with no segment confirmed and each followed under a number of its own. On an
/// established link every segment is handed to the MAC at once, in order, and followed under the
/// reporter that goes with it; on a link that the peer has stopped none is, and the TL-SDU counts
/// as never sent.
pub proof fn law_request_enters_window(
    st: LlcView,
    m: SapMsgView,
    p: TlaReqAlView,
    segs: Seq<Seq<bool>>,
    i: int,
)
    requires
        st.wf(),
        asks_al(m, p),
        meant(st, p, i),
        is_up(st.links[i]),
        p.tl_sdu.len() <= st.links[i].max_tl_sdu_octets,
        st.links[i].outstanding.len() < st.links[i].effective_tx_sdu_window,
        p.segments == Ok::<Seq<Seq<bool>>, SegmentationError>(segs),
    ensures
        ({
            let t = after_prim(st, m);
            let (l, k) = (st.links[i], t.links[i]);
            let x = k.outstanding.last();
            let msgs = prim_msgs(st, m);
            &&& t.links.len() == st.links.len()
            &&& forall|j: int|
                0 <= j < st.links.len() && j != i ==> #[trigger] t.links[j] == st.links[j]
            &&& t == (LlcView { links: t.links, next_id: t.next_id, ..st })
            &&& k == (AlLinkView { outstanding: k.outstanding, next_n_s: k.next_n_s, ..l })
            &&& next_number(l.next_n_s, k.next_n_s, l.tx_window)
            &&& k.outstanding.len() == l.outstanding.len() + 1
            &&& k.outstanding.drop_last() == l.outstanding
            &&& x.n_s == l.next_n_s && x.pdus == segs
            &&& x.acked.len() == segs.len() && x.reporters.len() == segs.len()
            &&& forall|n: int| 0 <= n < segs.len() ==> !#[trigger] x.acked[n]
            &&& forall|n: int|
                0 <= n < segs.len() ==> (#[trigger] x.reporters[n] matches Some(r) && r.state
                    == TxState::Pending)
            &&& forall|n: int|
                0 <= n < segs.len() ==> (#[trigger] x.reporters[n])->0.id == ReporterId::Llc(
                    number_behind(st.next_id, n) as u64,
                )
            &&& t.next_id == number_behind(st.next_id, segs.len() as int)
            &&& x.last_segment_tx_at is None && x.retx_count == 0 && !x.force_retx
            &&& if l.phase == AlPhase::Established {
                &&& x.sent_at == Some(st.dltime)
                &&& msgs.len() == segs.len()
                &&& forall|n: int|
                    0 <= n < segs.len() ==> hands_over(
                        #[trigger] msgs[n],
                        l,
                        LlcPduView::AlSegment(segs[n]),
                        x.reporters[n],
                    )
            } else {
                x.sent_at is None && msgs.len() == 0
            }
        }),
{
    lemma_meant(st, p, i);
    let t = after_prim(st, m);
    let l = st.links[i];
    let k = t.links[i];
    lemma_next_number(l.next_n_s, l.tx_window);
    assert(k.outstanding.drop_last() =~= l.outstanding);
}

/// A TL-SDU is to be cut under the N(S) that it enters the window with, into segments of the
/// configured size, and only its last segment asks for an acknowledgement. There is nothing to
/// cut for a link that is not known.
pub proof fn law_how_a_request_is_cut(st: LlcView, m: SapMsgView, p: TlaReqAlView, segs: Seq<Seq<bool>>, i: int)
    requires
        st.wf(),
        asks_al(m, p),
        meant(st, p, i),
        is_up(st.links[i]),
        p.tl_sdu.len() <= st.links[i].max_tl_sdu_octets,
        st.links[i].outstanding.len() < st.links[i].effective_tx_sdu_window,
        p.segments == Ok::<Seq<Seq<bool>>, SegmentationError>(segs),
    ensures
        segmenter_of(st, st.links[i].key) matches Some(c) && {
            &&& c.starting_n_s == after_prim(st, m).links[i].outstanding.last().n_s
            &&& c.segment_payload_bits == st.al_segment_payload_bits
            &&& c.request_ack_on_final && !c.request_ack_on_data
        },
        forall|key: AlLinkKey|
            #![trigger segmenter_of(st, key)]
            segmenter_of(st, key) is Some <==> exists|k: int|
                0 <= k < st.links.len() && (#[trigger] st.links[k]).key == key,
{
    lemma_meant(st, p, i);
    assert forall|key: AlLinkKey| #![trigger segmenter_of(st, key)]
        segmenter_of(st, key) is Some <==> exists|k: int|
            0 <= k < st.links.len() && (#[trigger] st.links[k]).key == key by {
        if exists|k: int| 0 <= k < st.links.len() && (#[trigger] st.links[k]).key == key {
            let k = choose|k: int| 0 <= k < st.links.len() && (#[trigger] st.links[k]).key == key;
            assert(has_key(st.links, key, k));
        }
        if link_pos(st.links, key) is Some {
            let k = choose|k: int| has_key(st.links, key, k);
            assert(st.links[k].key == key);
        }
    }
}

/// A TL-SDU that needs no confirmation: on an established link its segments are handed to the
/// MAC at once, in order, followed by nobody, and an N(S) is used up. On any other link nothing
/// happens.
pub proof fn law_unconfirmed_request(st: LlcView, m: SapMsgView, p: TlaReqAlView, i: int)
    requires
        st.wf(),
        m.sap == Sap::TlaSap,
        m.msg == SapInnerView::TlaTlUnitdataReqAl(p),
        meant(st, p, i),
    ensures
        ({
            let t = after_prim(st, m);
            let (l, k) = (st.links[i], t.links[i]);
            let msgs = prim_msgs(st, m);
            &&& only_link(st, t, i) && t.deliveries == st.deliveries
            &&& k == (AlLinkView { next_n_s: k.next_n_s, ..l })
            &&& if l.phase == AlPhase::Established {
                &&& next_number(l.next_n_s, k.next_n_s, l.tx_window)
                &&& match p.segments {
                    Ok(segs) => msgs.len() == segs.len() && forall|n: int|
                        0 <= n < segs.len() ==> hands_over(
                            #[trigger] msgs[n],
                            l,
                            LlcPduView::AlSegment(segs[n]),
                            None,
                        ),
                    Err(_) => msgs.len() == 0,
                }
            } else {
                k.next_n_s == l.next_n_s && msgs.len() == 0
            }
        }),
{
    lemma_meant(st, p, i);
    lemma_next_number(st.links[i].next_n_s, st.links[i].tx_window);
}

/// What a request for a TL-SDU is told. A link that is not known is named; a link that is not up,
/// a TL-SDU longer than was agreed on, with both lengths, and a TL-SDU that could not be cut, with
/// the reason, are refused in this order. One that finds the window full is not cut and is
/// accepted to wait, and any other is accepted.
pub proof fn law_what_a_request_is_told(
    st: LlcView,
    key: AlLinkKey,
    len: nat,
    segments: Result<Seq<Seq<bool>>, SegmentationError>,
    i: int,
)
    requires
        st.wf(),
        len <= usize::MAX,
        0 <= i < st.links.len(),
        st.links[i].key == key,
    ensures
        ({
            let l = st.links[i];
            match enqueue_result(st, key, len, segments) {
                Ok(_) => {
                    &&& is_up(l)
                    &&& len <= l.max_tl_sdu_octets
                    &&& l.outstanding.len() >= l.effective_tx_sdu_window || segments is Ok
                },
                Err(AlError::NotEstablished) => !is_up(l),
                Err(AlError::SduTooLarge { got, max }) => {
                    &&& is_up(l)
                    &&& len > l.max_tl_sdu_octets && got == len && max == l.max_tl_sdu_octets
                },
                Err(AlError::SegmentationFailed(e)) => {
                    &&& is_up(l) && len <= l.max_tl_sdu_octets
                    &&& l.outstanding.len() < l.effective_tx_sdu_window
                    &&& segments matches Err(f) && f == e
                },
                Err(_) => false,
            }
        }),
{
    assert(has_key(st.links, key, i));
    lemma_link_pos(st.links, key, i);
}

/// A request for a link that is not known is told so, with the name of the link.
pub proof fn law_request_for_no_link_is_told(
    st: LlcView,
    key: AlLinkKey,
    len: nat,
    segments: Result<Seq<Seq<bool>>, SegmentationError>,
)
    requires
        forall|i: int| 0 <= i < st.links.len() ==> (#[trigger] st.links[i]).key != key,
    ensures
        enqueue_result(st, key, len, segments) matches Err(AlError::UnknownLink(k)) && k == key,
{
    assert forall|i: int| !has_key(st.links, key, i) by {
        if has_key(st.links, key, i) {
            assert(st.links[i].key != key);
        }
    }
}

// ---- reports ---------------------------------------------------------------------------------

/// A report of the MAC reaches the segment that it is about, wherever it stands, and no other:
/// its reporter has the new state, and nothing else of the links changes.
pub proof fn law_report_reaches_its_segment(
    st: LlcView,
    id: ReporterId,
    state: TxState,
    i: int,
    j: int,
    k: int,
)
    requires
        0 <= i < st.links.len(),
        0 <= j < st.links[i].outstanding.len(),
        0 <= k < st.links[i].outstanding[j].reporters.len(),
    ensures
        ({
            let t = after_report(st, id, state);
            let (l, l2) = (st.links[i], t.links[i]);
            let (x, x2) = (l.outstanding[j], l2.outstanding[j]);
            &&& t.links.len() == st.links.len()
            &&& l2 == (AlLinkView { outstanding: l2.outstanding, ..l })
            &&& l2.outstanding.len() == l.outstanding.len()
            &&& x2 == (OutstandingView { reporters: x2.reporters, ..x })
            &&& x2.reporters.len() == x.reporters.len()
            &&& x.reporters[k] matches Some(r) ==> x2.reporters[k] == Some(
                TxReporter {
                    id: r.id,
                    state: if r.id == id {
                        state
                    } else {
                        r.state
                    },
                },
            )
            &&& x.reporters[k] is None ==> x2.reporters[k] is None
            &&& t == (LlcView { links: t.links, outbound: t.outbound, ..st })
        }),
{
}

// ---- primitives out of place -----------------------------------------------------------------

/// A primitive that has no business at its access point changes nothing and sends nothing: the
/// MAC indicates PDUs, and the layer above asks for TL-SDUs to be sent.
pub proof fn law_primitive_out_of_place(st: LlcView, m: SapMsgView)
    requires
        m.sap == Sap::TmaSap ==> !(m.msg is TmaUnitdataInd),
        m.sap == Sap::TlaSap ==> !(m.msg is TlaTlDataReqBl) && !(m.msg is TlaTlUnitdataReqBl) && !(
        m.msg is TlaTlDataReqAl) && !(m.msg is TlaTlUnitdataReqAl),
    ensures
        after_prim(st, m) == st,
        prim_msgs(st, m).len() == 0,
{
}

} // verus!
