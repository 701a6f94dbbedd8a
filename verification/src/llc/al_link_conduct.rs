//! How advanced links come and go, told by what each primitive leaves behind and what it sends.

use crate::llc::al_conduct::{at, only_link, plain, same_agreement};
use crate::llc::al_link::{AlLinkKey, AlLinkView, AlPhase};
use crate::llc::bl_conduct::hands_up;
use crate::llc::dispatch::{after_prim, prim_msgs};
use crate::llc::entity::LlcView;
use crate::llc::link_table::{find_link, has_key, lemma_link_pos, link_pos};
use crate::llc::pdus::{
    AdvancedLinkService, AdvancedLinkType, AlDisc, AlDiscCause, AlReconnect, AlSetup,
    MaxTlSduLengthN271, ReconnectReport, RxPduView, SetupReport,
};
use crate::saps::{LlcPduView, Sap, SapInnerView, SapMsgView, TetraEntity, TmaIndView};
use vstd::prelude::*;

verus! {

/// Link `i` is the one that the PDU names by its address and a link number.
pub open spec fn known(st: LlcView, ind: TmaIndView, n261: u8, i: int) -> bool {
    0 <= i < st.links.len() && at(st.links[i], ind) && st.links[i].key.n261 == n261
}

/// There is no link of this number at the address of the PDU.
pub open spec fn unknown(st: LlcView, ind: TmaIndView, n261: u8) -> bool {
    forall|i: int|
        0 <= i < st.links.len() ==> !(at(#[trigger] st.links[i], ind) && st.links[i].key.n261
            == n261)
}

/// The LLC answers the PDU with one of its own, to where it came from.
pub open spec fn answers(m: SapMsgView, ind: TmaIndView, pdu: LlcPduView) -> bool {
    &&& m.sap == Sap::TmaSap && m.src == TetraEntity::Llc && m.dest == TetraEntity::Umac
    &&& m.msg matches SapInnerView::TmaUnitdataReq(r)
    &&& r.pdu == pdu
    &&& r.carrier_num == ind.carrier_num
    &&& r.main_address == ind.main_address
    &&& r.link_id == ind.link_id && r.endpoint_id == ind.endpoint_id
    &&& r.tx_reporter is None
    &&& plain(r.params)
}

/// The LLC has the MAC purge what it holds for a subscriber.
pub open spec fn purges(m: SapMsgView, ssi: u32) -> bool {
    &&& m.sap == Sap::Control && m.src == TetraEntity::Llc && m.dest == TetraEntity::Umac
    &&& m.msg == (SapInnerView::TmaPurgeByAddressReq { issi: ssi })
}

proof fn lemma_known(st: LlcView, ind: TmaIndView, n261: u8, i: int)
    requires
        st.wf(),
        known(st, ind, n261, i),
    ensures
        ({
            let key = AlLinkKey::of(ind.main_address, ind.link_id, ind.endpoint_id, n261);
            &&& key == st.links[i].key
            &&& link_pos(st.links, key) == Some(i)
            &&& find_link(st.links, key) == Some(st.links[i])
            &&& st.links[i].wf()
        }),
{
    let key = AlLinkKey::of(ind.main_address, ind.link_id, ind.endpoint_id, n261);
    assert(has_key(st.links, key, i));
    lemma_link_pos(st.links, key, i);
}

proof fn lemma_unknown(st: LlcView, ind: TmaIndView, n261: u8)
    requires
        unknown(st, ind, n261),
    ensures
        ({
            let key = AlLinkKey::of(ind.main_address, ind.link_id, ind.endpoint_id, n261);
            &&& link_pos(st.links, key) is None
            &&& find_link(st.links, key) is None
        }),
{
    let key = AlLinkKey::of(ind.main_address, ind.link_id, ind.endpoint_id, n261);
    assert forall|i: int| !has_key(st.links, key, i) by {
        if has_key(st.links, key, i) {
            assert(at(st.links[i], ind) && st.links[i].key.n261 == n261);
        }
    }
}

// ---- set-up ----------------------------------------------------------------------------------

/// The PDU is an AL-SETUP.
pub open spec fn proposes(m: SapMsgView, ind: TmaIndView, p: AlSetup) -> bool {
    hands_up(m, ind) && ind.pdu == Some(RxPduView::AlSetup(p))
}

/// `e` is the proposal with another report.
pub open spec fn echo_of(e: AlSetup, p: AlSetup, report: SetupReport) -> bool {
    e == (AlSetup { setup_report: report, ..p })
}

/// The set-up that the LLC itself asked for has come through.
pub open spec fn comes_through(l: AlLinkView, p: AlSetup) -> bool {
    l.phase == AlPhase::SetupPending && p.setup_report == SetupReport::Success
}

/// The proposal is the one that the link was set up with last, word for word.
pub open spec fn said_before(st: LlcView, l: AlLinkView, p: AlSetup) -> bool {
    &&& st.config.advanced_link.cache_setup_echo
    &&& p.setup_report != SetupReport::Reset
    &&& l.phase == AlPhase::Established
    &&& l.last_setup_echo matches Some(e) && echo_of(e, p, SetupReport::Success)
}

/// The proposal is for a service that there is: acknowledged, on an original link.
pub open spec fn offered(p: AlSetup) -> bool {
    &&& p.advanced_link_service == AdvancedLinkService::Ack
    &&& p.tl_sdu_window_size_n272_n281 == 0 ==> p.advanced_link_type != Some(
        AdvancedLinkType::Extended,
    )
}

/// The answer to the LLC's own set-up establishes the link and stops the timer. It is not
/// answered.
pub proof fn law_set_up_comes_through(st: LlcView, m: SapMsgView, ind: TmaIndView, p: AlSetup, i: int)
    requires
        st.wf(),
        proposes(m, ind, p),
        known(st, ind, p.advanced_link_number_n261, i),
        comes_through(st.links[i], p),
    ensures
        ({
            let t = after_prim(st, m);
            let (l, k) = (st.links[i], t.links[i]);
            &&& only_link(st, t, i) && t.deliveries == st.deliveries
            &&& k.phase == AlPhase::Established && k.t_setup_start is None
            &&& k == (AlLinkView { phase: k.phase, t_setup_start: k.t_setup_start, ..l })
            &&& prim_msgs(st, m).len() == 0
        }),
{
    lemma_known(st, ind, p.advanced_link_number_n261, i);
}

/// A proposal that was heard before is answered as before. The link stays as it is, but for
/// what it was receiving where the setting says so.
pub proof fn law_set_up_said_before(st: LlcView, m: SapMsgView, ind: TmaIndView, p: AlSetup, i: int)
    requires
        st.wf(),
        proposes(m, ind, p),
        known(st, ind, p.advanced_link_number_n261, i),
        said_before(st, st.links[i], p),
    ensures
        ({
            let t = after_prim(st, m);
            let (l, k) = (st.links[i], t.links[i]);
            let msgs = prim_msgs(st, m);
            &&& only_link(st, t, i) && t.deliveries == st.deliveries
            &&& if st.config.advanced_link.h47_cached_echo_clears_rx {
                &&& k.reassemblers.len() == 0 && k.unack_started_at.len() == 0
                    && k.recently_delivered_ns.len() == 0
                &&& k == (AlLinkView {
                    reassemblers: k.reassemblers,
                    unack_started_at: k.unack_started_at,
                    recently_delivered_ns: k.recently_delivered_ns,
                    ..l
                })
            } else {
                k == l
            }
            &&& msgs.len() == 1
            &&& exists|e: AlSetup|
                #[trigger] answers(msgs[0], ind, LlcPduView::AlSetup(e)) && echo_of(
                    e,
                    p,
                    SetupReport::Success,
                )
        }),
{
    lemma_known(st, ind, p.advanced_link_number_n261, i);
    let e = AlSetup { setup_report: SetupReport::Success, ..p };
    assert(answers(prim_msgs(st, m)[0], ind, LlcPduView::AlSetup(e)));
}

/// A proposal for a service that there is not is refused and changes nothing: another service
/// than the acknowledged one calls for a change of service, an extended link for a reset.
pub proof fn law_set_up_refused(st: LlcView, m: SapMsgView, ind: TmaIndView, p: AlSetup)
    requires
        st.wf(),
        proposes(m, ind, p),
        !offered(p),
        forall|i: int|
            #![trigger st.links[i]]
            known(st, ind, p.advanced_link_number_n261, i) ==> !comes_through(st.links[i], p)
                && !said_before(st, st.links[i], p),
    ensures
        after_prim(st, m) == st,
        prim_msgs(st, m).len() == 1,
        exists|e: AlSetup|
            #[trigger] answers(prim_msgs(st, m)[0], ind, LlcPduView::AlSetup(e)) && echo_of(
                e,
                p,
                if p.advanced_link_service == AdvancedLinkService::Ack {
                    SetupReport::Reset
                } else {
                    SetupReport::ServiceChange
                },
            ),
{
    let n = p.advanced_link_number_n261;
    if unknown(st, ind, n) {
        lemma_unknown(st, ind, n);
    } else {
        let i = choose|i: int|
            0 <= i < st.links.len() && at(#[trigger] st.links[i], ind) && st.links[i].key.n261 == n;
        assert(known(st, ind, n, i));
        lemma_known(st, ind, n, i);
    }
    let e = AlSetup {
        setup_report: if p.advanced_link_service == AdvancedLinkService::Ack {
            SetupReport::Reset
        } else {
            SetupReport::ServiceChange
        },
        ..p
    };
    assert(answers(prim_msgs(st, m)[0], ind, LlcPduView::AlSetup(e)));
}

/// How many octets a length code stands for.
pub open spec fn octets(c: MaxTlSduLengthN271, n: u16) -> bool {
    match c {
        MaxTlSduLengthN271::Bytes32 => n == 32,
        MaxTlSduLengthN271::Bytes64 => n == 64,
        MaxTlSduLengthN271::Bytes128 => n == 128,
        MaxTlSduLengthN271::Bytes256 => n == 256,
        MaxTlSduLengthN271::Bytes512 => n == 512,
        MaxTlSduLengthN271::Bytes1024 => n == 1024,
        MaxTlSduLengthN271::Bytes2048 => n == 2048,
        MaxTlSduLengthN271::Bytes4096 => n == 4096,
    }
}

/// The link works with what the proposal asked for: its service, TL-SDU length, window and
/// retransmissions. A window of zero refers to the augmented one, of three at most, and without
/// that means one. A peer of one timeslot gets one TL-SDU at a time.
pub open spec fn agreed(k: AlLinkView, p: AlSetup) -> bool {
    &&& k.service == p.advanced_link_service
    &&& octets(p.max_tl_sdu_length_n271, k.max_tl_sdu_octets)
    &&& p.tl_sdu_window_size_n272_n281 > 0 ==> k.tx_window == p.tl_sdu_window_size_n272_n281
    &&& p.tl_sdu_window_size_n272_n281 == 0 ==> match p.n272_n281_augmented {
        Some(w) => k.tx_window <= w && k.tx_window <= 3 && (k.tx_window == w || k.tx_window == 3),
        None => k.tx_window == 1,
    }
    &&& k.effective_tx_sdu_window == if p.connection_width == 0 {
        1
    } else {
        k.tx_window
    }
    &&& k.max_sdu_retx == p.max_retx_n273_or_repetition_n282
    &&& k.max_segment_retx == p.max_segment_retx_n274
}

/// The link has nothing under way in either direction, and no procedure.
pub open spec fn at_rest(k: AlLinkView) -> bool {
    &&& k.next_n_s == 0 && k.outstanding.len() == 0 && k.pending_sdus.len() == 0
    &&& k.reassemblers.len() == 0 && k.unack_started_at.len() == 0 && k.recently_delivered_ns.len()
        == 0
    &&& !k.needs_deferred_ack
    &&& k.t_setup_start is None && k.t_disc_start is None && k.t_reconnect_start is None
        && k.t_rnr_start is None
    &&& k.setup_retries == 0 && k.disc_retries == 0 && k.reconnect_retries == 0
    &&& k.pending_setup_pdu is None && k.pending_reconnect_pdu is None
}

/// A new link at the address of the PDU is the last of the table, and the others stay.
pub open spec fn only_new(st: LlcView, t: LlcView, ind: TmaIndView, n261: u8) -> bool {
    &&& t.links.len() == st.links.len() + 1
    &&& t.links.drop_last() == st.links
    &&& t == (LlcView { links: t.links, ..st })
    &&& known(t, ind, n261, t.links.len() - 1)
    &&& t.links.last().main_address == ind.main_address
    &&& t.links.last().carrier_num == ind.carrier_num
}

/// A proposal for a link that is not known brings one up with what was asked for, and is echoed
/// with success.
pub proof fn law_set_up_of_new_link(st: LlcView, m: SapMsgView, ind: TmaIndView, p: AlSetup)
    requires
        st.wf(),
        proposes(m, ind, p),
        offered(p),
        unknown(st, ind, p.advanced_link_number_n261),
    ensures
        ({
            let t = after_prim(st, m);
            let k = t.links.last();
            let msgs = prim_msgs(st, m);
            &&& only_new(st, t, ind, p.advanced_link_number_n261)
            &&& k.phase == AlPhase::Established
            &&& agreed(k, p) && at_rest(k)
            &&& k.last_setup_echo matches Some(e) && echo_of(e, p, SetupReport::Success)
            &&& msgs.len() == 1
            &&& answers(msgs[0], ind, LlcPduView::AlSetup(k.last_setup_echo->0))
        }),
{
    lemma_unknown(st, ind, p.advanced_link_number_n261);
    let t = after_prim(st, m);
    assert(t.links.drop_last() =~= st.links);
}

/// A proposal for a known link sets it up anew: what was asked for takes the place of what was
/// agreed, nothing stays under way, what the MAC holds for the subscriber is purged, and then the
/// proposal is echoed with success.
pub proof fn law_set_up_of_known_link(st: LlcView, m: SapMsgView, ind: TmaIndView, p: AlSetup, i: int)
    requires
        st.wf(),
        proposes(m, ind, p),
        offered(p),
        known(st, ind, p.advanced_link_number_n261, i),
        !comes_through(st.links[i], p),
        !said_before(st, st.links[i], p),
    ensures
        ({
            let t = after_prim(st, m);
            let (l, k) = (st.links[i], t.links[i]);
            let msgs = prim_msgs(st, m);
            &&& only_link(st, t, i) && t.deliveries == st.deliveries
            &&& k.key == l.key && k.main_address == l.main_address
            &&& k.carrier_num == ind.carrier_num
            &&& k.phase == AlPhase::Established
            &&& agreed(k, p) && at_rest(k)
            &&& k.last_setup_echo matches Some(e) && echo_of(e, p, SetupReport::Success)
            &&& msgs.len() == 2
            &&& purges(msgs[0], ind.main_address.ssi)
            &&& answers(msgs[1], ind, LlcPduView::AlSetup(k.last_setup_echo->0))
        }),
{
    lemma_known(st, ind, p.advanced_link_number_n261, i);
}

// ---- disconnection ---------------------------------------------------------------------------

/// An AL-DISC removes the link and only it, and purges what the MAC holds for the subscriber.
/// It is confirmed, unless it is itself the confirmation that the link waited for.
pub proof fn law_disconnection(st: LlcView, m: SapMsgView, ind: TmaIndView, d: AlDisc, i: int)
    requires
        st.wf(),
        hands_up(m, ind),
        ind.pdu == Some(RxPduView::AlDisc(d)),
        known(st, ind, d.advanced_link_number_n261, i),
    ensures
        ({
            let t = after_prim(st, m);
            let msgs = prim_msgs(st, m);
            &&& t.links == st.links.remove(i)
            &&& t == (LlcView { links: t.links, ..st })
            &&& msgs.len() == if st.links[i].phase == AlPhase::DisconnectPending {
                1int
            } else {
                2int
            }
            &&& purges(msgs[0], ind.main_address.ssi)
            &&& st.links[i].phase != AlPhase::DisconnectPending ==> exists|e: AlDisc|
                {
                    &&& #[trigger] answers(msgs[1], ind, LlcPduView::AlDisc(e))
                    &&& e.report == AlDiscCause::Success
                    &&& e.advanced_link_service == d.advanced_link_service
                    &&& e.advanced_link_number_n261 == d.advanced_link_number_n261
                }
        }),
{
    lemma_known(st, ind, d.advanced_link_number_n261, i);
    let msgs = prim_msgs(st, m);
    if st.links[i].phase != AlPhase::DisconnectPending {
        assert(answers(
            msgs[1],
            ind,
            LlcPduView::AlDisc(AlDisc { report: AlDiscCause::Success, ..d }),
        ));
    }
}

/// An AL-DISC for a link that is not known changes nothing and is confirmed.
pub proof fn law_disconnection_of_nothing(st: LlcView, m: SapMsgView, ind: TmaIndView, d: AlDisc)
    requires
        hands_up(m, ind),
        ind.pdu == Some(RxPduView::AlDisc(d)),
        unknown(st, ind, d.advanced_link_number_n261),
    ensures
        after_prim(st, m) == st,
        prim_msgs(st, m).len() == 1,
        exists|e: AlDisc|
            {
                &&& #[trigger] answers(prim_msgs(st, m)[0], ind, LlcPduView::AlDisc(e))
                &&& e.report == AlDiscCause::Success
                &&& e.advanced_link_service == d.advanced_link_service
                &&& e.advanced_link_number_n261 == d.advanced_link_number_n261
            },
{
    lemma_unknown(st, ind, d.advanced_link_number_n261);
    assert(answers(
        prim_msgs(st, m)[0],
        ind,
        LlcPduView::AlDisc(AlDisc { report: AlDiscCause::Success, ..d }),
    ));
}

// ---- reconnection ----------------------------------------------------------------------------

/// The PDU is an AL-RECONNECT.
pub open spec fn reconnects(m: SapMsgView, ind: TmaIndView, r: AlReconnect) -> bool {
    hands_up(m, ind) && ind.pdu == Some(RxPduView::AlReconnect(r))
}

/// The only message accepts the reconnection.
pub open spec fn accepts(msgs: Seq<SapMsgView>, ind: TmaIndView, r: AlReconnect) -> bool {
    &&& msgs.len() == 1
    &&& exists|a: AlReconnect|
        {
            &&& #[trigger] answers(msgs[0], ind, LlcPduView::AlReconnect(a))
            &&& a.reconnect_report == ReconnectReport::Accept
            &&& a.advanced_link_service == r.advanced_link_service
            &&& a.advanced_link_number_n261 == r.advanced_link_number_n261
        }
}

/// A proposal to reconnect a known link is accepted: the link is up on the new carrier with what
/// was agreed before and nothing under way.
pub proof fn law_reconnection_of_known_link(
    st: LlcView,
    m: SapMsgView,
    ind: TmaIndView,
    r: AlReconnect,
    i: int,
)
    requires
        st.wf(),
        reconnects(m, ind, r),
        r.reconnect_report == ReconnectReport::Propose,
        known(st, ind, r.advanced_link_number_n261, i),
    ensures
        ({
            let t = after_prim(st, m);
            let (l, k) = (st.links[i], t.links[i]);
            &&& only_link(st, t, i) && t.deliveries == st.deliveries
            &&& same_agreement(AlLinkView { carrier_num: ind.carrier_num, ..l }, k)
            &&& k.phase == AlPhase::Established
            &&& at_rest(k) && k.last_setup_echo is None
            &&& accepts(prim_msgs(st, m), ind, r)
        }),
{
    lemma_known(st, ind, r.advanced_link_number_n261, i);
    assert(answers(
        prim_msgs(st, m)[0],
        ind,
        LlcPduView::AlReconnect(AlReconnect { reconnect_report: ReconnectReport::Accept, ..r }),
    ));
}

/// A proposal to reconnect a link that is not known is accepted too: a link comes up with the
/// configured parameters.
pub proof fn law_reconnection_of_new_link(st: LlcView, m: SapMsgView, ind: TmaIndView, r: AlReconnect)
    requires
        st.wf(),
        reconnects(m, ind, r),
        r.reconnect_report == ReconnectReport::Propose,
        unknown(st, ind, r.advanced_link_number_n261),
    ensures
        ({
            let t = after_prim(st, m);
            let k = t.links.last();
            let al = st.config.advanced_link;
            &&& only_new(st, t, ind, r.advanced_link_number_n261)
            &&& k.phase == AlPhase::Established
            &&& k.service == r.advanced_link_service
            &&& k.max_tl_sdu_octets == al.max_tl_sdu_octets
            &&& k.tx_window == al.tx_window && k.effective_tx_sdu_window == al.tx_window
            &&& k.max_sdu_retx == al.max_sdu_retx && k.max_segment_retx == al.max_segment_retx
            &&& at_rest(k) && k.last_setup_echo is None
            &&& accepts(prim_msgs(st, m), ind, r)
        }),
{
    lemma_unknown(st, ind, r.advanced_link_number_n261);
    let t = after_prim(st, m);
    assert(t.links.drop_last() =~= st.links);
    assert(answers(
        prim_msgs(st, m)[0],
        ind,
        LlcPduView::AlReconnect(AlReconnect { reconnect_report: ReconnectReport::Accept, ..r }),
    ));
}

/// The peer's answer to a reconnection: an acceptance brings the link up, a rejection makes it
/// idle and has it forget the echo of its set-up. Neither is answered, and any other report, or
/// one for a link that is not known, changes nothing.
pub proof fn law_reconnection_answered(
    st: LlcView,
    m: SapMsgView,
    ind: TmaIndView,
    r: AlReconnect,
    i: int,
)
    requires
        st.wf(),
        reconnects(m, ind, r),
        r.reconnect_report != ReconnectReport::Propose,
        known(st, ind, r.advanced_link_number_n261, i),
    ensures
        ({
            let t = after_prim(st, m);
            let (l, k) = (st.links[i], t.links[i]);
            &&& prim_msgs(st, m).len() == 0
            &&& only_link(st, t, i) && t.deliveries == st.deliveries
            &&& match r.reconnect_report {
                ReconnectReport::Accept => k == (AlLinkView {
                    phase: AlPhase::Established,
                    t_reconnect_start: None,
                    ..l
                }),
                ReconnectReport::Reject => k == (AlLinkView {
                    phase: AlPhase::Idle,
                    t_reconnect_start: None,
                    last_setup_echo: None,
                    ..l
                }),
                _ => k == l,
            }
        }),
{
    lemma_known(st, ind, r.advanced_link_number_n261, i);
}

/// An answer about a link that is not known changes nothing.
pub proof fn law_reconnection_answer_for_nothing(
    st: LlcView,
    m: SapMsgView,
    ind: TmaIndView,
    r: AlReconnect,
)
    requires
        reconnects(m, ind, r),
        r.reconnect_report != ReconnectReport::Propose,
        unknown(st, ind, r.advanced_link_number_n261),
    ensures
        after_prim(st, m) == st,
        prim_msgs(st, m).len() == 0,
{
    lemma_unknown(st, ind, r.advanced_link_number_n261);
}

} // verus!
