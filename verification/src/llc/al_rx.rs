//! Advanced-link PDUs from the peer.

use crate::al_events::{AlDeliveryEvent, AlDeliveryOutcome};
use crate::llc::al_link::{
    al_msg, make_al_raw_sap_msg, octet_in, ring_capacity, window_after_block, block_delivers,
    AlLink, AlLinkKey, AlLinkView, AlPhase, LinkRoute, OutstandingView, RxSlot, UnackSlot,
};
use crate::llc::config::LlcConfig;
use crate::llc::entity::{Llc, LlcView};
use crate::llc::link_table::{
    drop_link, find_link, has_key, lemma_put_link, link_pos, links_wf, put_link,
};
use crate::llc::pdus::{
    AckBlockView, AcknowledgementBlock, AdvancedLinkService, AdvancedLinkType, AlAckAlRnr,
    AlAckAlRnrKind, AlAckView, AlDisc, AlDiscCause, AlFeed, AlFeedView, AlReconnect, AlSetup,
    AlUnackFeed, AlUnackFeedView, ReconnectReport, SetupReport,
};
use crate::saps::{
    make_purge, make_to_mle, purge_msg, to_mle_msg, LlcPdu, LlcPduView, MessageQueue, SapInnerView,
    SapMsgInner, SapMsgView, TetraAddress, TlaIndAl, TlaIndAlView,
};
use crate::tdma::TdmaTime;
use vstd::prelude::*;

verus! {

impl LlcView {
    /// The LLC with `link` stored under its key.
    pub open spec fn with_link(self, link: AlLinkView) -> LlcView {
        LlcView { links: put_link(self.links, link), ..self }
    }
}

/// The route of a reply to a PDU that came in on a carrier.
pub open spec fn reply_route(key: AlLinkKey, carrier_num: u16, main_address: TetraAddress) -> LinkRoute {
    LinkRoute { carrier_num, main_address, link_id: key.link_id, endpoint_id: key.endpoint_id }
}

fn make_reply_route(key: AlLinkKey, carrier_num: u16, main_address: TetraAddress) -> (r: LinkRoute)
    ensures
        r == reply_route(key, carrier_num, main_address),
{
    LinkRoute { carrier_num, main_address, link_id: key.link_id, endpoint_id: key.endpoint_id }
}

// ---- AL-SETUP -----------------------------------------------------------------------

/// What an AL-SETUP leads to.
#[derive(Debug, Clone, Copy, PartialEq, Eq, Structural)]
pub enum SetupCase {
    /// The peer confirms the set-up that is pending.
    Confirm,
    /// The peer repeats the proposal that the link was accepted with.
    Repeat,
    /// The proposal cannot be served.
    Refuse,
    /// The proposal is accepted.
    Accept,
}

/// The proposal can be served: the acknowledged service on an original link.
pub open spec fn setup_supported(pdu: AlSetup) -> bool {
    &&& pdu.advanced_link_service == AdvancedLinkService::Ack
    &&& !(pdu.tl_sdu_window_size_n272_n281 == 0 && pdu.advanced_link_type == Some(
        AdvancedLinkType::Extended,
    ))
}

/// The proposal sent back with a report.
pub open spec fn setup_echo(pdu: AlSetup, report: SetupReport) -> AlSetup {
    AlSetup { setup_report: report, ..pdu }
}

/// What an AL-SETUP leads to, given the link it is about.
pub open spec fn setup_case(link: Option<AlLinkView>, pdu: AlSetup, cfg: LlcConfig) -> SetupCase {
    if link matches Some(l) && l.phase == AlPhase::SetupPending && pdu.setup_report
        == SetupReport::Success {
        SetupCase::Confirm
    } else if cfg.advanced_link.cache_setup_echo && pdu.setup_report != SetupReport::Reset && (
    link matches Some(l) && l.phase == AlPhase::Established && l.last_setup_echo == Some(
        setup_echo(pdu, SetupReport::Success),
    )) {
        SetupCase::Repeat
    } else if !setup_supported(pdu) {
        SetupCase::Refuse
    } else {
        SetupCase::Accept
    }
}

/// The window that a proposal asks for.
pub open spec fn proposed_window(pdu: AlSetup) -> u8 {
    if pdu.tl_sdu_window_size_n272_n281 != 0 {
        pdu.tl_sdu_window_size_n272_n281
    } else {
        match pdu.n272_n281_augmented {
            Some(w) => if w <= 3 {
                w
            } else {
                3
            },
            None => 1,
        }
    }
}

/// A link without any transfer state.
pub open spec fn blank_link(
    key: AlLinkKey,
    main_address: TetraAddress,
    service: AdvancedLinkService,
    carrier_num: u16,
) -> AlLinkView {
    AlLinkView {
        key,
        main_address,
        phase: AlPhase::Idle,
        service,
        max_tl_sdu_octets: 0,
        tx_window: 0,
        effective_tx_sdu_window: 0,
        max_sdu_retx: 0,
        max_segment_retx: 0,
        next_n_s: 0,
        outstanding: Seq::empty(),
        reassemblers: Seq::empty(),
        unack_started_at: Seq::empty(),
        t_setup_start: None,
        t_disc_start: None,
        t_reconnect_start: None,
        t_rnr_start: None,
        setup_retries: 0,
        disc_retries: 0,
        reconnect_retries: 0,
        pending_setup_pdu: None,
        pending_reconnect_pdu: None,
        carrier_num,
        needs_deferred_ack: false,
        pending_sdus: Seq::empty(),
        last_setup_echo: None,
        recently_delivered_ns: Seq::empty(),
    }
}

/// The link after a proposal has been accepted: established with what was proposed,
/// all transfer state dropped, the echo kept. A single-slot peer gets one TL-SDU at a
/// time whatever window it asks for.
pub open spec fn accepted_link(
    link: Option<AlLinkView>,
    key: AlLinkKey,
    carrier_num: u16,
    main_address: TetraAddress,
    pdu: AlSetup,
) -> AlLinkView {
    let base = match link {
        Some(l) => l,
        None => blank_link(key, main_address, pdu.advanced_link_service, carrier_num),
    };
    AlLinkView {
        phase: AlPhase::Established,
        service: pdu.advanced_link_service,
        max_tl_sdu_octets: pdu.max_tl_sdu_length_n271.octets_spec(),
        tx_window: proposed_window(pdu),
        effective_tx_sdu_window: if pdu.connection_width == 0 {
            1
        } else {
            proposed_window(pdu)
        },
        max_sdu_retx: pdu.max_retx_n273_or_repetition_n282,
        max_segment_retx: pdu.max_segment_retx_n274,
        carrier_num,
        last_setup_echo: Some(setup_echo(pdu, SetupReport::Success)),
        ..base.reset()
    }
}

/// The report that refuses a proposal.
pub open spec fn refusal(pdu: AlSetup) -> SetupReport {
    if pdu.advanced_link_service != AdvancedLinkService::Ack {
        SetupReport::ServiceChange
    } else {
        SetupReport::Reset
    }
}

/// The LLC after an AL-SETUP.
pub open spec fn after_setup(
    st: LlcView,
    key: AlLinkKey,
    carrier_num: u16,
    main_address: TetraAddress,
    pdu: AlSetup,
) -> LlcView {
    let link = find_link(st.links, key);
    match setup_case(link, pdu, st.config) {
        SetupCase::Confirm => st.with_link(
            AlLinkView { phase: AlPhase::Established, t_setup_start: None, ..link->0 },
        ),
        SetupCase::Repeat => if st.config.advanced_link.h47_cached_echo_clears_rx {
            st.with_link(link->0.reset_rx())
        } else {
            st
        },
        SetupCase::Refuse => st,
        SetupCase::Accept => st.with_link(
            accepted_link(link, key, carrier_num, main_address, pdu),
        ),
    }
}

/// The replies to an AL-SETUP. A link that is set up again has its queue in the MAC
/// purged before the echo goes out.
pub open spec fn setup_replies(
    st: LlcView,
    key: AlLinkKey,
    carrier_num: u16,
    main_address: TetraAddress,
    pdu: AlSetup,
) -> Seq<SapMsgView> {
    let link = find_link(st.links, key);
    let route = reply_route(key, carrier_num, main_address);
    match setup_case(link, pdu, st.config) {
        SetupCase::Confirm => Seq::empty(),
        SetupCase::Repeat => seq![
            al_msg(route, LlcPduView::AlSetup(setup_echo(pdu, SetupReport::Success)), None),
        ],
        SetupCase::Refuse => seq![
            al_msg(route, LlcPduView::AlSetup(setup_echo(pdu, refusal(pdu))), None),
        ],
        SetupCase::Accept => (if link is Some {
            seq![purge_msg(key.ssi)]
        } else {
            Seq::empty()
        }) + seq![
            al_msg(route, LlcPduView::AlSetup(setup_echo(pdu, SetupReport::Success)), None),
        ],
    }
}

// ---- AL-DISC ------------------------------------------------------------------------

/// The replies to an AL-DISC. A known link has its queue in the MAC purged; the
/// confirmation of our own AL-DISC is not answered.
pub open spec fn disc_replies(
    st: LlcView,
    key: AlLinkKey,
    carrier_num: u16,
    main_address: TetraAddress,
    pdu: AlDisc,
) -> Seq<SapMsgView> {
    let link = find_link(st.links, key);
    let purge = if link is Some {
        seq![purge_msg(key.ssi)]
    } else {
        Seq::empty()
    };
    if link matches Some(l) && l.phase == AlPhase::DisconnectPending {
        purge
    } else {
        purge.push(
            al_msg(
                reply_route(key, carrier_num, main_address),
                LlcPduView::AlDisc(AlDisc { report: AlDiscCause::Success, ..pdu }),
                None,
            ),
        )
    }
}

// ---- AL-RECONNECT -------------------------------------------------------------------

/// The link that a reconnection brings up when none is known, with the configured
/// parameters.
pub open spec fn reconnected_link(
    st: LlcView,
    key: AlLinkKey,
    carrier_num: u16,
    main_address: TetraAddress,
    pdu: AlReconnect,
) -> AlLinkView {
    let al = st.config.advanced_link;
    AlLinkView {
        phase: AlPhase::Established,
        max_tl_sdu_octets: al.max_tl_sdu_octets,
        tx_window: al.tx_window,
        effective_tx_sdu_window: al.tx_window,
        max_sdu_retx: al.max_sdu_retx,
        max_segment_retx: al.max_segment_retx,
        ..blank_link(key, main_address, pdu.advanced_link_service, carrier_num)
    }
}

/// The LLC after an AL-RECONNECT.
pub open spec fn after_reconnect(
    st: LlcView,
    key: AlLinkKey,
    carrier_num: u16,
    main_address: TetraAddress,
    pdu: AlReconnect,
) -> LlcView {
    match (pdu.reconnect_report, find_link(st.links, key)) {
        (ReconnectReport::Propose, Some(l)) => st.with_link(
            AlLinkView { phase: AlPhase::Established, carrier_num, ..l }.reset(),
        ),
        (ReconnectReport::Propose, None) => st.with_link(
            reconnected_link(st, key, carrier_num, main_address, pdu),
        ),
        (ReconnectReport::Accept, Some(l)) => st.with_link(
            AlLinkView { phase: AlPhase::Established, t_reconnect_start: None, ..l },
        ),
        (ReconnectReport::Reject, Some(l)) => st.with_link(
            AlLinkView {
                phase: AlPhase::Idle,
                t_reconnect_start: None,
                last_setup_echo: None,
                ..l
            },
        ),
        _ => st,
    }
}

/// The reply to an AL-RECONNECT: a proposal is accepted.
pub open spec fn reconnect_replies(
    key: AlLinkKey,
    carrier_num: u16,
    main_address: TetraAddress,
    pdu: AlReconnect,
) -> Seq<SapMsgView> {
    if pdu.reconnect_report == ReconnectReport::Propose {
        seq![
            al_msg(
                reply_route(key, carrier_num, main_address),
                LlcPduView::AlReconnect(
                    AlReconnect { reconnect_report: ReconnectReport::Accept, ..pdu },
                ),
                None,
            ),
        ]
    } else {
        Seq::empty()
    }
}

// ---- AL-DATA / AL-FINAL -----------------------------------------------------------------

/// A TL-SDU with this N(S) is under reassembly.
pub open spec fn has_slot(s: Seq<RxSlot>, n_s: u8) -> bool {
    exists|i: int| 0 <= i < s.len() && (#[trigger] s[i]).n_s == n_s
}

/// The reassemblies with `slot` in place of the one with its N(S), or added.
pub open spec fn put_slot(s: Seq<RxSlot>, slot: RxSlot) -> Seq<RxSlot> {
    if has_slot(s, slot.n_s) {
        Seq::new(
            s.len(),
            |i: int|
                if s[i].n_s == slot.n_s {
                    slot
                } else {
                    s[i]
                },
        )
    } else {
        s.push(slot)
    }
}

/// The reassemblies without the one with this N(S).
pub open spec fn drop_slot(s: Seq<RxSlot>, n_s: u8) -> Seq<RxSlot> {
    s.filter(|x: RxSlot| x.n_s != n_s)
}

/// The list without a value.
pub open spec fn drop_octet(s: Seq<u8>, x: u8) -> Seq<u8> {
    s.filter(|y: u8| y != x)
}

/// The ring of delivered N(S) after one more: no duplicate, the newest last, the oldest
/// forgotten when the ring is full.
pub open spec fn ring_push(ring: Seq<u8>, n_s: u8, capacity: int) -> Seq<u8> {
    let r = drop_octet(ring, n_s).push(n_s);
    if r.len() > capacity {
        r.skip(r.len() - capacity)
    } else {
        r
    }
}

/// The TL-SDU of this N(S) was delivered already and is not to be delivered again.
pub open spec fn is_duplicate(link: Option<AlLinkView>, n_s: u8, cfg: LlcConfig) -> bool {
    cfg.advanced_link.dedupe_completed_ns && (link matches Some(l)
        && l.recently_delivered_ns.contains(n_s))
}

/// The link after a segment that its reassembler made `feed` of.
pub open spec fn link_after_data(l: AlLinkView, ar: bool, n_s: u8, feed: AlFeedView, cfg: LlcConfig) -> AlLinkView {
    match feed {
        AlFeedView::Complete { sdu } => AlLinkView {
            reassemblers: drop_slot(l.reassemblers, n_s),
            recently_delivered_ns: if cfg.advanced_link.dedupe_completed_ns {
                ring_push(l.recently_delivered_ns, n_s, ring_capacity(l.tx_window))
            } else {
                l.recently_delivered_ns
            },
            ..l
        },
        AlFeedView::FcsFailure => AlLinkView {
            reassemblers: drop_slot(l.reassemblers, n_s),
            ..l
        },
        AlFeedView::NeedMore { next_expected_ss } => AlLinkView {
            reassemblers: put_slot(l.reassemblers, RxSlot { n_s, next_expected_ss }),
            needs_deferred_ack: l.needs_deferred_ack || !ar,
            ..l
        },
        AlFeedView::Error { next_expected_ss } => AlLinkView {
            reassemblers: put_slot(l.reassemblers, RxSlot { n_s, next_expected_ss }),
            ..l
        },
    }
}

/// The acknowledgement block that a segment is answered with at once, if it is.
pub open spec fn data_ack(ar: bool, n_s: u8, feed: AlFeedView) -> Option<AckBlockView> {
    match feed {
        AlFeedView::Complete { sdu } => Some(AckBlockView::entire(n_s)),
        AlFeedView::FcsFailure => Some(AckBlockView::fcs_failure(n_s)),
        AlFeedView::NeedMore { next_expected_ss } => if ar {
            Some(AckBlockView::cumulative(n_s, next_expected_ss))
        } else {
            None
        },
        AlFeedView::Error { next_expected_ss } => None,
    }
}

/// An AL-ACK with one block.
pub open spec fn ack_reply(route: LinkRoute, block: AckBlockView) -> SapMsgView {
    al_msg(
        route,
        LlcPduView::AlAck(AlAckView { kind: AlAckAlRnrKind::Ack, blocks: seq![block] }),
        None,
    )
}

/// The indication for a TL-SDU received on an advanced link.
pub open spec fn al_ind(l: AlLinkView, sdu: Seq<bool>) -> TlaIndAlView {
    TlaIndAlView {
        main_address: l.main_address,
        link_id: l.key.link_id,
        endpoint_id: l.key.endpoint_id,
        al_link_number: l.key.n261,
        tl_sdu: sdu,
        subscriber_class: 0,
        fcs_ok: true,
        air_interface_encryption: None,
    }
}

/// The LLC after an AL-DATA or AL-FINAL. One that repeats a delivered TL-SDU changes
/// nothing, nor does one on a link that is not up.
pub open spec fn after_data(st: LlcView, key: AlLinkKey, ar: bool, n_s: u8, feed: AlFeedView) -> LlcView {
    let link = find_link(st.links, key);
    if is_duplicate(link, n_s, st.config) {
        st
    } else if link matches Some(l) && l.is_open() {
        st.with_link(link_after_data(link->0, ar, n_s, feed, st.config))
    } else {
        st
    }
}

/// What an AL-DATA or AL-FINAL sends: a complete TL-SDU up, then the acknowledgement
/// down. One that repeats a delivered TL-SDU is only acknowledged, and only if it asks
/// for it.
pub open spec fn data_msgs(st: LlcView, key: AlLinkKey, ar: bool, n_s: u8, feed: AlFeedView) -> Seq<SapMsgView> {
    let link = find_link(st.links, key);
    if is_duplicate(link, n_s, st.config) {
        if ar {
            seq![ack_reply(link->0.route(), AckBlockView::entire(n_s))]
        } else {
            Seq::empty()
        }
    } else if link matches Some(l) && l.is_open() {
        let l = link->0;
        let up = match feed {
            AlFeedView::Complete { sdu } => seq![
                to_mle_msg(SapInnerView::TlaTlDataIndAl(al_ind(l, sdu))),
            ],
            _ => Seq::empty(),
        };
        match data_ack(ar, n_s, feed) {
            Some(b) => up.push(ack_reply(l.route(), b)),
            None => up,
        }
    } else {
        Seq::empty()
    }
}

// ---- AL-UDATA / AL-UFINAL ------------------------------------------------------------

/// An unacknowledged TL-SDU with this N(S) is under reassembly.
pub open spec fn has_unack_slot(s: Seq<UnackSlot>, n_s: u8) -> bool {
    exists|i: int| 0 <= i < s.len() && (#[trigger] s[i]).n_s == n_s
}

/// The unacknowledged reassemblies without the one with this N(S).
pub open spec fn drop_unack_slot(s: Seq<UnackSlot>, n_s: u8) -> Seq<UnackSlot> {
    s.filter(|x: UnackSlot| x.n_s != n_s)
}

/// The unacknowledged reassemblies after a segment at `now`. The lifetime of a TL-SDU
/// counts from its first segment.
pub open spec fn unack_after(s: Seq<UnackSlot>, n_s: u8, now: TdmaTime, feed: AlUnackFeedView) -> Seq<UnackSlot> {
    if feed is NeedMore {
        if has_unack_slot(s, n_s) {
            s
        } else {
            s.push(UnackSlot { n_s, started_at: now })
        }
    } else {
        drop_unack_slot(s, n_s)
    }
}

/// The LLC after an AL-UDATA or AL-UFINAL.
pub open spec fn after_udata(st: LlcView, key: AlLinkKey, n_s: u8, feed: AlUnackFeedView) -> LlcView {
    match find_link(st.links, key) {
        Some(l) => if l.phase == AlPhase::Established {
            st.with_link(
                AlLinkView {
                    unack_started_at: unack_after(l.unack_started_at, n_s, st.dltime, feed),
                    ..l
                },
            )
        } else {
            st
        },
        None => st,
    }
}

/// What an AL-UDATA or AL-UFINAL sends: a complete TL-SDU up, never an acknowledgement.
pub open spec fn udata_msgs(st: LlcView, key: AlLinkKey, feed: AlUnackFeedView) -> Seq<SapMsgView> {
    match (find_link(st.links, key), feed) {
        (Some(l), AlUnackFeedView::Complete { sdu }) => if l.phase == AlPhase::Established {
            seq![to_mle_msg(SapInnerView::TlaTlUnitdataIndAl(al_ind(l, sdu)))]
        } else {
            Seq::empty()
        },
        _ => Seq::empty(),
    }
}

// ---- AL-ACK / AL-RNR --------------------------------------------------------------------

/// The window after the first `n` of a list of blocks.
pub open spec fn window_after_blocks(s: Seq<OutstandingView>, blocks: Seq<AckBlockView>, n: nat) -> Seq<
    OutstandingView,
>
    decreases n,
{
    if n == 0 {
        s
    } else {
        window_after_block(window_after_blocks(s, blocks, (n - 1) as nat), blocks[n - 1])
    }
}

/// The N(S) that the first `n` of a list of blocks confirm in full.
pub open spec fn blocks_deliver(s: Seq<OutstandingView>, blocks: Seq<AckBlockView>, n: nat) -> Seq<u8>
    decreases n,
{
    if n == 0 {
        Seq::empty()
    } else {
        let before = blocks_deliver(s, blocks, (n - 1) as nat);
        match block_delivers(window_after_blocks(s, blocks, (n - 1) as nat), blocks[n - 1]) {
            Some(n_s) => before.push(n_s),
            None => before,
        }
    }
}

/// The events that report `ns` as delivered.
pub open spec fn delivered_events(key: AlLinkKey, ns: Seq<u8>) -> Seq<AlDeliveryEvent> {
    Seq::new(ns.len(), |i: int| key.event(ns[i], AlDeliveryOutcome::Delivered))
}

/// The LLC after an AL-ACK or AL-RNR: AL-RNR stops the link, AL-ACK lets it go on, and
/// the blocks of either advance the window. A link that is stopped forgets the echo of its
/// set-up.
pub open spec fn after_ack_rnr(st: LlcView, key: AlLinkKey, pdu: AlAckView) -> LlcView {
    match find_link(st.links, key) {
        Some(l) => if l.is_open() {
            let flow = if pdu.kind == AlAckAlRnrKind::Rnr {
                AlLinkView {
                    phase: AlPhase::FlowControlled,
                    t_rnr_start: Some(st.dltime),
                    last_setup_echo: None,
                    ..l
                }
            } else if l.phase == AlPhase::FlowControlled {
                AlLinkView { phase: AlPhase::Established, t_rnr_start: None, ..l }
            } else {
                l
            };
            let n = pdu.blocks.len();
            st.with_link(
                AlLinkView {
                    outstanding: window_after_blocks(l.outstanding, pdu.blocks, n),
                    ..flow
                },
            ).with_events(delivered_events(key, blocks_deliver(l.outstanding, pdu.blocks, n)))
        } else {
            st
        },
        None => st,
    }
}

// ---- lemmas on the small lists -----------------------------------------------------------

/// Each N(S) occurs at most once.
pub open spec fn slots_unique(s: Seq<RxSlot>) -> bool {
    forall|i: int, j: int|
        0 <= i < j < s.len() ==> (#[trigger] s[i]).n_s != (#[trigger] s[j]).n_s
}

/// Each N(S) occurs at most once.
pub open spec fn unack_unique(s: Seq<UnackSlot>) -> bool {
    forall|i: int, j: int|
        0 <= i < j < s.len() ==> (#[trigger] s[i]).n_s != (#[trigger] s[j]).n_s
}

proof fn lemma_drop_slot(s: Seq<RxSlot>, n_s: u8)
    requires
        slots_unique(s),
    ensures
        slots_unique(drop_slot(s, n_s)),
        forall|i: int|
            0 <= i < drop_slot(s, n_s).len() ==> s.contains(#[trigger] drop_slot(s, n_s)[i])
                && drop_slot(s, n_s)[i].n_s != n_s,
    decreases s.len(),
{
    reveal(Seq::filter);
    if s.len() > 0 {
        let head = s.drop_last();
        lemma_drop_slot(head, n_s);
        let f = drop_slot(s, n_s);
        let g = drop_slot(head, n_s);
        assert forall|i: int| 0 <= i < f.len() implies s.contains(#[trigger] f[i]) && f[i].n_s
            != n_s by {
            if i < g.len() {
                assert(f[i] == g[i]);
                let k = choose|k: int| 0 <= k < head.len() && head[k] == g[i];
                assert(s[k] == f[i]);
            } else {
                assert(s[s.len() - 1] == f[i]);
            }
        }
        assert forall|i: int, j: int| 0 <= i < j < f.len() implies (#[trigger] f[i]).n_s != (
        #[trigger] f[j]).n_s by {
            assert(f[i] == g[i]);
            if j < g.len() {
                assert(f[j] == g[j]);
            } else {
                let k = choose|k: int| 0 <= k < head.len() && head[k] == g[i];
                assert(s[k].n_s != s[s.len() - 1].n_s);
            }
        }
    }
}

proof fn lemma_drop_unack_slot(s: Seq<UnackSlot>, n_s: u8)
    requires
        unack_unique(s),
    ensures
        unack_unique(drop_unack_slot(s, n_s)),
        forall|i: int|
            0 <= i < drop_unack_slot(s, n_s).len() ==> s.contains(
                #[trigger] drop_unack_slot(s, n_s)[i],
            ),
    decreases s.len(),
{
    reveal(Seq::filter);
    if s.len() > 0 {
        let head = s.drop_last();
        lemma_drop_unack_slot(head, n_s);
        let f = drop_unack_slot(s, n_s);
        let g = drop_unack_slot(head, n_s);
        assert forall|i: int| 0 <= i < f.len() implies s.contains(#[trigger] f[i]) by {
            if i < g.len() {
                assert(f[i] == g[i]);
                let k = choose|k: int| 0 <= k < head.len() && head[k] == g[i];
                assert(s[k] == f[i]);
            } else {
                assert(s[s.len() - 1] == f[i]);
            }
        }
        assert forall|i: int, j: int| 0 <= i < j < f.len() implies (#[trigger] f[i]).n_s != (
        #[trigger] f[j]).n_s by {
            assert(f[i] == g[i]);
            if j < g.len() {
                assert(f[j] == g[j]);
            } else {
                let k = choose|k: int| 0 <= k < head.len() && head[k] == g[i];
                assert(s[k].n_s != s[s.len() - 1].n_s);
            }
        }
    }
}

proof fn lemma_drop_octet(s: Seq<u8>, x: u8)
    requires
        s.no_duplicates(),
    ensures
        drop_octet(s, x).no_duplicates(),
        !drop_octet(s, x).contains(x),
        drop_octet(s, x).len() <= s.len(),
        forall|i: int| 0 <= i < drop_octet(s, x).len() ==> s.contains(#[trigger] drop_octet(s, x)[i]),
    decreases s.len(),
{
    reveal(Seq::filter);
    if s.len() > 0 {
        let head = s.drop_last();
        lemma_drop_octet(head, x);
        let f = drop_octet(s, x);
        let g = drop_octet(head, x);
        assert forall|i: int| 0 <= i < f.len() implies s.contains(#[trigger] f[i]) && f[i] != x by {
            if i < g.len() {
                assert(f[i] == g[i]);
                assert(g.contains(g[i]));
                let k = choose|k: int| 0 <= k < head.len() && head[k] == g[i];
                assert(s[k] == f[i]);
            } else {
                assert(s[s.len() - 1] == f[i]);
            }
        }
        assert forall|i: int, j: int| 0 <= i < f.len() && 0 <= j < f.len() && i != j implies f[i]
            != f[j] by {
            if i < g.len() && j < g.len() {
                assert(f[i] == g[i] && f[j] == g[j]);
            } else {
                let a = if i < j {
                    i
                } else {
                    j
                };
                assert(f[a] == g[a]);
                let k = choose|k: int| 0 <= k < head.len() && head[k] == g[a];
                assert(s[k] != s[s.len() - 1]);
            }
        }
    }
}

/// The ring stays free of duplicates and in its bound, and holds what was pushed.
pub proof fn lemma_ring_push(ring: Seq<u8>, n_s: u8, capacity: int)
    requires
        ring.no_duplicates(),
        capacity >= 1,
    ensures
        ring_push(ring, n_s, capacity).no_duplicates(),
        ring_push(ring, n_s, capacity).len() <= capacity,
        ring_push(ring, n_s, capacity).contains(n_s),
{
    lemma_drop_octet(ring, n_s);
    let d = drop_octet(ring, n_s);
    let r = d.push(n_s);
    let out = ring_push(ring, n_s, capacity);
    assert forall|i: int, j: int| 0 <= i < r.len() && 0 <= j < r.len() && i != j implies r[i]
        != r[j] by {
        if i < d.len() && j < d.len() {
            assert(d[i] != d[j]);
        } else if i < d.len() {
            assert(d.contains(d[i]));
        } else {
            assert(d.contains(d[j]));
        }
    }
    assert(out[out.len() - 1] == n_s);
}

fn remove_slot(v: &mut Vec<RxSlot>, n_s: u8)
    requires
        slots_unique(old(v)@),
    ensures
        final(v)@ == drop_slot(old(v)@, n_s),
        slots_unique(final(v)@),
{
    let ghost s = v@;
    let n: usize = v.len();
    let mut kept: Vec<RxSlot> = Vec::new();
    let mut i: usize = 0;
    proof {
        lemma_drop_slot(s, n_s);
        reveal(Seq::filter);
        assert(drop_slot(s.take(0), n_s) =~= Seq::<RxSlot>::empty());
    }
    while i < n
        invariant
            i <= n,
            n == s.len(),
            v@ == s,
            kept@ == drop_slot(s.take(i as int), n_s),
        decreases n - i,
    {
        proof {
            reveal(Seq::filter);
            assert(s.take(i + 1).drop_last() =~= s.take(i as int));
        }
        if v[i].n_s != n_s {
            kept.push(v[i]);
        }
        i = i + 1;
    }
    assert(s.take(n as int) =~= s);
    *v = kept;
}

fn remove_unack_slot(v: &mut Vec<UnackSlot>, n_s: u8)
    requires
        unack_unique(old(v)@),
    ensures
        final(v)@ == drop_unack_slot(old(v)@, n_s),
        unack_unique(final(v)@),
{
    let ghost s = v@;
    let n: usize = v.len();
    let mut kept: Vec<UnackSlot> = Vec::new();
    let mut i: usize = 0;
    proof {
        lemma_drop_unack_slot(s, n_s);
        reveal(Seq::filter);
        assert(drop_unack_slot(s.take(0), n_s) =~= Seq::<UnackSlot>::empty());
    }
    while i < n
        invariant
            i <= n,
            n == s.len(),
            v@ == s,
            kept@ == drop_unack_slot(s.take(i as int), n_s),
        decreases n - i,
    {
        proof {
            reveal(Seq::filter);
            assert(s.take(i + 1).drop_last() =~= s.take(i as int));
        }
        if v[i].n_s != n_s {
            kept.push(v[i]);
        }
        i = i + 1;
    }
    assert(s.take(n as int) =~= s);
    *v = kept;
}

/// The place of the reassembly with this N(S).
pub fn find_slot(v: &Vec<RxSlot>, n_s: u8) -> (r: Option<usize>)
    ensures
        match r {
            Some(i) => i < v@.len() && v@[i as int].n_s == n_s,
            None => !has_slot(v@, n_s),
        },
{
    let mut i: usize = 0;
    while i < v.len()
        invariant
            i <= v@.len(),
            forall|j: int| 0 <= j < i ==> (#[trigger] v@[j]).n_s != n_s,
        decreases v@.len() - i,
    {
        if v[i].n_s == n_s {
            return Some(i);
        }
        i = i + 1;
    }
    None
}

fn store_slot(v: &mut Vec<RxSlot>, slot: RxSlot)
    requires
        slots_unique(old(v)@),
    ensures
        final(v)@ == put_slot(old(v)@, slot),
        slots_unique(final(v)@),
{
    let ghost s = v@;
    match find_slot(v, slot.n_s) {
        Some(i) => {
            assert(has_slot(s, slot.n_s)) by {
                assert(s[i as int].n_s == slot.n_s);
            }
            v.set(i, slot);
            assert forall|j: int| 0 <= j < s.len() && j != i implies (#[trigger] s[j]).n_s
                != slot.n_s by {
                if j < i {
                    assert(s[j].n_s != s[i as int].n_s);
                } else {
                    assert(s[i as int].n_s != s[j].n_s);
                }
            }
            assert(v@ =~= put_slot(s, slot));
            assert forall|a: int, b: int| 0 <= a < b < v@.len() implies (#[trigger] v@[a]).n_s != (
            #[trigger] v@[b]).n_s by {
                assert(s[a].n_s != s[b].n_s);
            }
        },
        None => {
            v.push(slot);
            assert forall|a: int, b: int| 0 <= a < b < v@.len() implies (#[trigger] v@[a]).n_s != (
            #[trigger] v@[b]).n_s by {
                if b < s.len() {
                    assert(s[a].n_s != s[b].n_s);
                } else {
                    assert(s[a].n_s != slot.n_s);
                }
            }
        },
    }
}

/// Notes a delivered N(S) in the ring.
fn remember_delivered(ring: &mut Vec<u8>, n_s: u8, tx_window: u8)
    requires
        old(ring)@.no_duplicates(),
    ensures
        final(ring)@ == ring_push(old(ring)@, n_s, ring_capacity(tx_window)),
        final(ring)@.no_duplicates(),
        final(ring)@.len() <= ring_capacity(tx_window),
{
    let ghost s = ring@;
    let n: usize = ring.len();
    let mut kept: Vec<u8> = Vec::new();
    let mut i: usize = 0;
    proof {
        lemma_ring_push(s, n_s, ring_capacity(tx_window));
        reveal(Seq::filter);
        assert(drop_octet(s.take(0), n_s) =~= Seq::<u8>::empty());
    }
    while i < n
        invariant
            i <= n,
            n == s.len(),
            ring@ == s,
            kept@ == drop_octet(s.take(i as int), n_s),
        decreases n - i,
    {
        proof {
            reveal(Seq::filter);
            assert(s.take(i + 1).drop_last() =~= s.take(i as int));
        }
        if ring[i] != n_s {
            kept.push(ring[i]);
        }
        i = i + 1;
    }
    assert(s.take(n as int) =~= s);
    kept.push(n_s);
    let ghost full = kept@;
    let capacity: usize = if tx_window >= 1 {
        tx_window as usize
    } else {
        1
    };
    let ghost mut cut: int = 0;
    assert(full.skip(0) =~= full);
    while kept.len() > capacity
        invariant
            0 <= cut <= full.len(),
            kept@ == full.skip(cut),
            cut > 0 ==> full.len() - cut >= capacity,
            capacity >= 1,
        decreases kept@.len(),
    {
        kept.remove(0);
        proof {
            cut = cut + 1;
            assert(kept@ =~= full.skip(cut));
        }
    }
    proof {
        if full.len() > capacity {
            assert(cut == full.len() - capacity);
        } else {
            assert(cut == 0);
        }
    }
    *ring = kept;
}

impl AlLink {
    /// Takes in what the reassembler made of a segment; see [`link_after_data`]. Returns
    /// the complete TL-SDU and the block to answer with at once.
    pub fn receive_data(&mut self, ar: bool, n_s: u8, feed: AlFeed, cfg: &LlcConfig) -> (r: (
        Option<Vec<bool>>,
        Option<AcknowledgementBlock>,
    ))
        requires
            old(self)@.wf(),
        ensures
            final(self)@ == link_after_data(old(self)@, ar, n_s, feed@, *cfg),
            final(self)@.wf(),
            match r.0 {
                Some(sdu) => feed@ == (AlFeedView::Complete { sdu: sdu@ }),
                None => feed@ !is Complete,
            },
            match r.1 {
                Some(b) => data_ack(ar, n_s, feed@) == Some(b@),
                None => data_ack(ar, n_s, feed@) is None,
            },
    {
        let ghost l = self@;
        assert(slots_unique(self.reassemblers@));
        match feed {
            AlFeed::Complete { sdu } => {
                remove_slot(&mut self.reassemblers, n_s);
                if cfg.advanced_link.dedupe_completed_ns {
                    remember_delivered(&mut self.recently_delivered_ns, n_s, self.tx_window);
                }
                assert(self@ =~= link_after_data(l, ar, n_s, AlFeedView::Complete { sdu: sdu@ }, *cfg));
                (Some(sdu), Some(AcknowledgementBlock::entire(n_s)))
            },
            AlFeed::FcsFailure => {
                remove_slot(&mut self.reassemblers, n_s);
                assert(self@ =~= link_after_data(l, ar, n_s, AlFeedView::FcsFailure, *cfg));
                (None, Some(AcknowledgementBlock::fcs_failure(n_s)))
            },
            AlFeed::NeedMore { next_expected_ss } => {
                store_slot(&mut self.reassemblers, RxSlot { n_s, next_expected_ss });
                let block: Option<AcknowledgementBlock> = if ar {
                    Some(AcknowledgementBlock::cumulative(n_s, next_expected_ss))
                } else {
                    self.needs_deferred_ack = true;
                    None
                };
                assert(self@ =~= link_after_data(
                    l,
                    ar,
                    n_s,
                    AlFeedView::NeedMore { next_expected_ss },
                    *cfg,
                ));
                (None, block)
            },
            AlFeed::Error { next_expected_ss } => {
                store_slot(&mut self.reassemblers, RxSlot { n_s, next_expected_ss });
                assert(self@ =~= link_after_data(
                    l,
                    ar,
                    n_s,
                    AlFeedView::Error { next_expected_ss },
                    *cfg,
                ));
                (None, None)
            },
        }
    }

    /// Takes in what the reassembler made of an unacknowledged segment; see
    /// [`unack_after`]. Returns the complete TL-SDU.
    pub fn receive_udata(&mut self, n_s: u8, feed: AlUnackFeed, now: TdmaTime) -> (r: Option<
        Vec<bool>,
    >)
        requires
            old(self)@.wf(),
        ensures
            final(self)@ == (AlLinkView {
                unack_started_at: unack_after(old(self)@.unack_started_at, n_s, now, feed@),
                ..old(self)@
            }),
            final(self)@.wf(),
            match r {
                Some(sdu) => feed@ == (AlUnackFeedView::Complete { sdu: sdu@ }),
                None => feed@ !is Complete,
            },
    {
        let ghost l = self@;
        let ghost fv = feed@;
        assert(unack_unique(self.unack_started_at@));
        if matches!(feed, AlUnackFeed::NeedMore) {
            let ghost s = self.unack_started_at@;
            let mut i: usize = 0;
            while i < self.unack_started_at.len()
                invariant
                    i <= self.unack_started_at@.len(),
                    self@ == l,
                    s == self.unack_started_at@,
                    forall|j: int| 0 <= j < i ==> (#[trigger] s[j]).n_s != n_s,
                    l.wf(),
                    s == l.unack_started_at,
                    fv is NeedMore,
                    fv == feed@,
                    l == old(self)@,
                decreases self.unack_started_at@.len() - i,
            {
                if self.unack_started_at[i].n_s == n_s {
                    assert(has_unack_slot(s, n_s)) by {
                        assert(s[i as int].n_s == n_s);
                    }
                    assert(self@ =~= (AlLinkView {
                        unack_started_at: unack_after(s, n_s, now, fv),
                        ..l
                    }));
                    return None;
                }
                i = i + 1;
            }
            assert(!has_unack_slot(s, n_s));
            self.unack_started_at.push(UnackSlot { n_s, started_at: now });
            assert(self@ =~= (AlLinkView { unack_started_at: unack_after(s, n_s, now, fv), ..l }));
            return None;
        }
        remove_unack_slot(&mut self.unack_started_at, n_s);
        assert(self@ =~= (AlLinkView {
            unack_started_at: unack_after(l.unack_started_at, n_s, now, fv),
            ..l
        }));
        match feed {
            AlUnackFeed::Complete { sdu } => Some(sdu),
            _ => None,
        }
    }

    /// Takes in the blocks of an acknowledgement. Returns the N(S) confirmed in full.
    pub fn process_ack_blocks(&mut self, pdu: &AlAckAlRnr) -> (r: Vec<u8>)
        requires
            old(self)@.wf(),
        ensures
            final(self)@ == (AlLinkView {
                outstanding: window_after_blocks(
                    old(self)@.outstanding,
                    pdu@.blocks,
                    pdu@.blocks.len(),
                ),
                ..old(self)@
            }),
            final(self)@.wf(),
            r@ == blocks_deliver(old(self)@.outstanding, pdu@.blocks, pdu@.blocks.len()),
    {
        let ghost l = self@;
        let ghost blocks = pdu@.blocks;
        let mut delivered: Vec<u8> = Vec::new();
        let n: usize = pdu.other_blocks.len();
        reveal_with_fuel(window_after_blocks, 2);
        reveal_with_fuel(blocks_deliver, 2);
        assert(blocks[0] == pdu.first_block@);
        if let Some(n_s) = self.process_ack_block(&pdu.first_block) {
            delivered.push(n_s);
        }
        assert(delivered@ =~= blocks_deliver(l.outstanding, blocks, 1));
        let mut i: usize = 0;
        while i < n
            invariant
                i <= n,
                n == pdu.other_blocks@.len(),
                blocks == pdu@.blocks,
                blocks.len() == n + 1,
                self@.wf(),
                self@ == (AlLinkView {
                    outstanding: window_after_blocks(l.outstanding, blocks, (i + 1) as nat),
                    ..l
                }),
                delivered@ == blocks_deliver(l.outstanding, blocks, (i + 1) as nat),
            decreases n - i,
        {
            assert(blocks[i + 1] == pdu.other_blocks@[i as int]@);
            if let Some(n_s) = self.process_ack_block(&pdu.other_blocks[i]) {
                delivered.push(n_s);
            }
            i = i + 1;
        }
        delivered
    }
}

impl Llc {
    /// Stores a changed link back; what the table then holds.
    proof fn lemma_link_changed(
        before: Seq<AlLinkView>,
        after: Seq<AlLinkView>,
        key: AlLinkKey,
        i: int,
        link: AlLinkView,
    )
        requires
            links_wf(before),
            link_pos(before, key) == Some(i),
            has_key(before, key, i),
            after == before.update(i, link),
            link.key == key,
            link.wf(),
        ensures
            after == put_link(before, link),
            links_wf(after),
    {
        lemma_put_link(before, link);
    }

    /// True when a proposal can be served; see [`setup_supported`].
    pub fn is_setup_supported(pdu: &AlSetup) -> (r: bool)
        ensures
            r == setup_supported(*pdu),
    {
        if pdu.advanced_link_service != AdvancedLinkService::Ack {
            return false;
        }
        if pdu.tl_sdu_window_size_n272_n281 == 0 {
            if let Some(AdvancedLinkType::Extended) = pdu.advanced_link_type {
                return false;
            }
        }
        true
    }

    /// The proposal sent back with a report.
    pub fn build_setup_echo(pdu: &AlSetup, report: SetupReport) -> (r: AlSetup)
        ensures
            r == setup_echo(*pdu, report),
    {
        AlSetup { setup_report: report, ..*pdu }
    }

    /// Serves an AL-SETUP; see [`after_setup`] and [`setup_replies`].
    pub fn on_al_setup(
        &mut self,
        queue: &mut MessageQueue,
        key: AlLinkKey,
        carrier_num: u16,
        main_address: TetraAddress,
        pdu: AlSetup,
    )
        requires
            old(self)@.wf(),
        ensures
            final(self)@ == after_setup(old(self)@, key, carrier_num, main_address, pdu),
            final(self)@.wf(),
            final(queue)@ == old(queue)@ + setup_replies(
                old(self)@,
                key,
                carrier_num,
                main_address,
                pdu,
            ),
    {
        let ghost st = self@;
        let ghost q = queue@;
        let ghost link = find_link(st.links, key);
        let found: Option<usize> = self.al_links.find(&key);
        let route: LinkRoute = make_reply_route(key, carrier_num, main_address);
        if let Some(i) = found {
            if self.al_links.links[i].phase == AlPhase::SetupPending && pdu.setup_report
                == SetupReport::Success {
                let l: &mut AlLink = &mut self.al_links.links[i];
                l.phase = AlPhase::Established;
                l.t_setup_start = None;
                let ghost changed = AlLinkView {
                    phase: AlPhase::Established,
                    t_setup_start: None,
                    ..link->0
                };
                proof {
                    assert(self.al_links@ =~= st.links.update(i as int, changed));
                    Self::lemma_link_changed(st.links, self.al_links@, key, i as int, changed);
                    assert(queue@ =~= q + Seq::<SapMsgView>::empty());
                }
                return;
            }
            if self.config.advanced_link.cache_setup_echo && self.al_links.links[i].phase
                == AlPhase::Established && pdu.setup_report != SetupReport::Reset {
                if let Some(cached) = self.al_links.links[i].last_setup_echo {
                    let echo: AlSetup = Self::build_setup_echo(&pdu, SetupReport::Success);
                    if echo == cached {
                        if self.config.advanced_link.h47_cached_echo_clears_rx {
                            self.al_links.links[i].reset_rx_state();
                            proof {
                                let changed = link->0.reset_rx();
                                assert(self.al_links@ =~= st.links.update(i as int, changed));
                                Self::lemma_link_changed(
                                    st.links,
                                    self.al_links@,
                                    key,
                                    i as int,
                                    changed,
                                );
                            }
                        }
                        queue.push_back(make_al_raw_sap_msg(route, LlcPdu::AlSetup(cached), None));
                        assert(queue@ =~= q + setup_replies(
                            st,
                            key,
                            carrier_num,
                            main_address,
                            pdu,
                        ));
                        return;
                    }
                }
            }
        }
        if !Self::is_setup_supported(&pdu) {
            let report: SetupReport = if pdu.advanced_link_service != AdvancedLinkService::Ack {
                SetupReport::ServiceChange
            } else {
                SetupReport::Reset
            };
            let reject: AlSetup = Self::build_setup_echo(&pdu, report);
            queue.push_back(make_al_raw_sap_msg(route, LlcPdu::AlSetup(reject), None));
            assert(queue@ =~= q + setup_replies(st, key, carrier_num, main_address, pdu));
            return;
        }
        assert(setup_case(link, pdu, st.config) == SetupCase::Accept);
        let tx_window: u8 = if pdu.tl_sdu_window_size_n272_n281 == 0 {
            match pdu.n272_n281_augmented {
                Some(w) => if w <= 3 {
                    w
                } else {
                    3
                },
                None => 1,
            }
        } else {
            pdu.tl_sdu_window_size_n272_n281
        };
        let effective_tx_sdu_window: u8 = if pdu.connection_width == 0 {
            1
        } else {
            tx_window
        };
        let echo: AlSetup = Self::build_setup_echo(&pdu, SetupReport::Success);
        let ghost accepted = accepted_link(link, key, carrier_num, main_address, pdu);
        match found {
            Some(i) => {
                queue.push_back(make_purge(key.ssi));
                let l: &mut AlLink = &mut self.al_links.links[i];
                l.reset_transfer_state();
                l.phase = AlPhase::Established;
                l.carrier_num = carrier_num;
                l.service = pdu.advanced_link_service;
                l.max_tl_sdu_octets = pdu.max_tl_sdu_length_n271.octets();
                l.tx_window = tx_window;
                l.effective_tx_sdu_window = effective_tx_sdu_window;
                l.max_sdu_retx = pdu.max_retx_n273_or_repetition_n282;
                l.max_segment_retx = pdu.max_segment_retx_n274;
                l.last_setup_echo = Some(echo);
                proof {
                    assert(self.al_links@ =~= st.links.update(i as int, accepted));
                    Self::lemma_link_changed(st.links, self.al_links@, key, i as int, accepted);
                }
            },
            None => {
                let mut l: AlLink = Self::blank_al_link(
                    key,
                    main_address,
                    pdu.advanced_link_service,
                    carrier_num,
                );
                l.phase = AlPhase::Established;
                l.max_tl_sdu_octets = pdu.max_tl_sdu_length_n271.octets();
                l.tx_window = tx_window;
                l.effective_tx_sdu_window = effective_tx_sdu_window;
                l.max_sdu_retx = pdu.max_retx_n273_or_repetition_n282;
                l.max_segment_retx = pdu.max_segment_retx_n274;
                l.last_setup_echo = Some(echo);
                assert(l@ =~= accepted);
                self.al_links.insert(l);
            },
        }
        queue.push_back(make_al_raw_sap_msg(route, LlcPdu::AlSetup(echo), None));
        assert(queue@ =~= q + setup_replies(st, key, carrier_num, main_address, pdu));
    }

    /// A link without any transfer state; see [`blank_link`].
    fn blank_al_link(
        key: AlLinkKey,
        main_address: TetraAddress,
        service: AdvancedLinkService,
        carrier_num: u16,
    ) -> (r: AlLink)
        ensures
            r@ == blank_link(key, main_address, service, carrier_num),
            r@.wf(),
    {
        let r = AlLink {
            key,
            main_address,
            phase: AlPhase::Idle,
            service,
            max_tl_sdu_octets: 0,
            tx_window: 0,
            effective_tx_sdu_window: 0,
            max_sdu_retx: 0,
            max_segment_retx: 0,
            next_n_s: 0,
            outstanding_sdus: Vec::new(),
            reassemblers: Vec::new(),
            unack_started_at: Vec::new(),
            t_setup_start: None,
            t_disc_start: None,
            t_reconnect_start: None,
            t_rnr_start: None,
            setup_retries: 0,
            disc_retries: 0,
            reconnect_retries: 0,
            pending_setup_pdu: None,
            pending_reconnect_pdu: None,
            carrier_num,
            needs_deferred_ack: false,
            pending_sdus: Vec::new(),
            last_setup_echo: None,
            recently_delivered_ns: Vec::new(),
        };
        assert(r@ =~= blank_link(key, main_address, service, carrier_num));
        r
    }

    /// Serves an AL-DISC: the link is gone, whoever asked for it; see [`disc_replies`].
    pub fn on_al_disc(
        &mut self,
        queue: &mut MessageQueue,
        key: AlLinkKey,
        carrier_num: u16,
        main_address: TetraAddress,
        pdu: AlDisc,
    )
        requires
            old(self)@.wf(),
        ensures
            final(self)@ == (LlcView { links: drop_link(old(self)@.links, key), ..old(self)@ }),
            final(self)@.wf(),
            find_link(final(self)@.links, key) is None,
            final(queue)@ == old(queue)@ + disc_replies(
                old(self)@,
                key,
                carrier_num,
                main_address,
                pdu,
            ),
    {
        let ghost st = self@;
        let ghost q = queue@;
        let mut we_initiated: bool = false;
        if let Some(i) = self.al_links.find(&key) {
            queue.push_back(make_purge(key.ssi));
            we_initiated = self.al_links.links[i].phase == AlPhase::DisconnectPending;
        }
        self.al_links.remove(&key);
        if !we_initiated {
            let reply = AlDisc {
                advanced_link_service: pdu.advanced_link_service,
                advanced_link_number_n261: pdu.advanced_link_number_n261,
                report: AlDiscCause::Success,
            };
            let route: LinkRoute = make_reply_route(key, carrier_num, main_address);
            queue.push_back(make_al_raw_sap_msg(route, LlcPdu::AlDisc(reply), None));
        }
        assert(queue@ =~= q + disc_replies(st, key, carrier_num, main_address, pdu));
    }

    /// Serves an AL-RECONNECT; see [`after_reconnect`] and [`reconnect_replies`].
    pub fn on_al_reconnect(
        &mut self,
        queue: &mut MessageQueue,
        key: AlLinkKey,
        carrier_num: u16,
        main_address: TetraAddress,
        pdu: AlReconnect,
    )
        requires
            old(self)@.wf(),
        ensures
            final(self)@ == after_reconnect(old(self)@, key, carrier_num, main_address, pdu),
            final(self)@.wf(),
            final(queue)@ == old(queue)@ + reconnect_replies(key, carrier_num, main_address, pdu),
    {
        let ghost st = self@;
        let ghost q = queue@;
        let ghost link = find_link(st.links, key);
        assert(q + Seq::<SapMsgView>::empty() =~= q);
        let found: Option<usize> = self.al_links.find(&key);
        match pdu.reconnect_report {
            ReconnectReport::Propose => {
                match found {
                    Some(i) => {
                        let l: &mut AlLink = &mut self.al_links.links[i];
                        l.phase = AlPhase::Established;
                        l.carrier_num = carrier_num;
                        l.reset_transfer_state();
                        proof {
                            let changed = AlLinkView {
                                phase: AlPhase::Established,
                                carrier_num,
                                ..link->0
                            }.reset();
                            assert(self.al_links@ =~= st.links.update(i as int, changed));
                            Self::lemma_link_changed(
                                st.links,
                                self.al_links@,
                                key,
                                i as int,
                                changed,
                            );
                        }
                    },
                    None => {
                        let al = self.config.advanced_link;
                        let mut l: AlLink = Self::blank_al_link(
                            key,
                            main_address,
                            pdu.advanced_link_service,
                            carrier_num,
                        );
                        l.phase = AlPhase::Established;
                        l.max_tl_sdu_octets = al.max_tl_sdu_octets;
                        l.tx_window = al.tx_window;
                        l.effective_tx_sdu_window = al.tx_window;
                        l.max_sdu_retx = al.max_sdu_retx;
                        l.max_segment_retx = al.max_segment_retx;
                        assert(l@ =~= reconnected_link(st, key, carrier_num, main_address, pdu));
                        self.al_links.insert(l);
                    },
                }
                let reply = AlReconnect {
                    advanced_link_service: pdu.advanced_link_service,
                    advanced_link_number_n261: pdu.advanced_link_number_n261,
                    reconnect_report: ReconnectReport::Accept,
                };
                let route: LinkRoute = make_reply_route(key, carrier_num, main_address);
                queue.push_back(make_al_raw_sap_msg(route, LlcPdu::AlReconnect(reply), None));
                assert(queue@ =~= q + reconnect_replies(key, carrier_num, main_address, pdu));
            },
            ReconnectReport::Accept => {
                if let Some(i) = found {
                    let l: &mut AlLink = &mut self.al_links.links[i];
                    l.phase = AlPhase::Established;
                    l.t_reconnect_start = None;
                    proof {
                        let changed = AlLinkView {
                            phase: AlPhase::Established,
                            t_reconnect_start: None,
                            ..link->0
                        };
                        assert(self.al_links@ =~= st.links.update(i as int, changed));
                        Self::lemma_link_changed(st.links, self.al_links@, key, i as int, changed);
                    }
                }
            },
            ReconnectReport::Reject => {
                if let Some(i) = found {
                    let l: &mut AlLink = &mut self.al_links.links[i];
                    l.phase = AlPhase::Idle;
                    l.t_reconnect_start = None;
                    l.last_setup_echo = None;
                    proof {
                        let changed = AlLinkView {
                            phase: AlPhase::Idle,
                            t_reconnect_start: None,
                            last_setup_echo: None,
                            ..link->0
                        };
                        assert(self.al_links@ =~= st.links.update(i as int, changed));
                        Self::lemma_link_changed(st.links, self.al_links@, key, i as int, changed);
                    }
                }
            },
            ReconnectReport::Reserved => {},
        }
    }

    /// Serves an AL-DATA or AL-FINAL; see [`after_data`] and [`data_msgs`].
    pub fn on_al_data(
        &mut self,
        queue: &mut MessageQueue,
        key: AlLinkKey,
        ar: bool,
        n_s: u8,
        feed: AlFeed,
    )
        requires
            old(self)@.wf(),
        ensures
            final(self)@ == after_data(old(self)@, key, ar, n_s, feed@),
            final(self)@.wf(),
            final(queue)@ == old(queue)@ + data_msgs(old(self)@, key, ar, n_s, feed@),
    {
        let ghost st = self@;
        let ghost q = queue@;
        let ghost link = find_link(st.links, key);
        let ghost fv = feed@;
        assert(q + Seq::<SapMsgView>::empty() =~= q);
        let i: usize = match self.al_links.find(&key) {
            Some(i) => i,
            None => {
                return;
            },
        };
        let route: LinkRoute = self.al_links.links[i].route();
        if self.config.advanced_link.dedupe_completed_ns && octet_in(
            &self.al_links.links[i].recently_delivered_ns,
            n_s,
        ) {
            if ar {
                let ack: AlAckAlRnr = AlAckAlRnr::single(AcknowledgementBlock::entire(n_s));
                queue.push_back(make_al_raw_sap_msg(route, LlcPdu::AlAck(ack), None));
                assert(queue@ =~= q + data_msgs(st, key, ar, n_s, fv));
            }
            return;
        }
        let phase: AlPhase = self.al_links.links[i].phase;
        if phase != AlPhase::Established && phase != AlPhase::FlowControlled {
            return;
        }
        let cfg: LlcConfig = self.config;
        let main_address: TetraAddress = self.al_links.links[i].main_address;
        assert(st.links[i as int].wf());
        let (completed, block): (Option<Vec<bool>>, Option<AcknowledgementBlock>) =
            self.al_links.links[i].receive_data(ar, n_s, feed, &cfg);
        proof {
            let changed = link_after_data(link->0, ar, n_s, fv, st.config);
            assert(self.al_links@ =~= st.links.update(i as int, changed));
            Self::lemma_link_changed(st.links, self.al_links@, key, i as int, changed);
        }
        if let Some(sdu) = completed {
            queue.push_back(
                make_to_mle(
                    SapMsgInner::TlaTlDataIndAl(
                        TlaIndAl {
                            main_address,
                            link_id: key.link_id,
                            endpoint_id: key.endpoint_id,
                            al_link_number: key.n261,
                            tl_sdu: sdu,
                            subscriber_class: 0,
                            fcs_ok: true,
                            air_interface_encryption: None,
                        },
                    ),
                ),
            );
        }
        if let Some(b) = block {
            let ack: AlAckAlRnr = AlAckAlRnr::single(b);
            queue.push_back(make_al_raw_sap_msg(route, LlcPdu::AlAck(ack), None));
        }
        assert(queue@ =~= q + data_msgs(st, key, ar, n_s, fv));
    }

    /// Serves an AL-UDATA or AL-UFINAL; see [`after_udata`] and [`udata_msgs`].
    pub fn on_al_udata(
        &mut self,
        queue: &mut MessageQueue,
        key: AlLinkKey,
        n_s: u8,
        feed: AlUnackFeed,
    )
        requires
            old(self)@.wf(),
        ensures
            final(self)@ == after_udata(old(self)@, key, n_s, feed@),
            final(self)@.wf(),
            final(queue)@ == old(queue)@ + udata_msgs(old(self)@, key, feed@),
    {
        let ghost st = self@;
        let ghost q = queue@;
        let ghost link = find_link(st.links, key);
        let ghost fv = feed@;
        assert(q + Seq::<SapMsgView>::empty() =~= q);
        let i: usize = match self.al_links.find(&key) {
            Some(i) => i,
            None => {
                return;
            },
        };
        if self.al_links.links[i].phase != AlPhase::Established {
            return;
        }
        let now: TdmaTime = self.dltime;
        let main_address: TetraAddress = self.al_links.links[i].main_address;
        assert(st.links[i as int].wf());
        let completed: Option<Vec<bool>> = self.al_links.links[i].receive_udata(n_s, feed, now);
        proof {
            let changed = AlLinkView {
                unack_started_at: unack_after(link->0.unack_started_at, n_s, st.dltime, fv),
                ..link->0
            };
            assert(self.al_links@ =~= st.links.update(i as int, changed));
            Self::lemma_link_changed(st.links, self.al_links@, key, i as int, changed);
        }
        if let Some(sdu) = completed {
            queue.push_back(
                make_to_mle(
                    SapMsgInner::TlaTlUnitdataIndAl(
                        TlaIndAl {
                            main_address,
                            link_id: key.link_id,
                            endpoint_id: key.endpoint_id,
                            al_link_number: key.n261,
                            tl_sdu: sdu,
                            subscriber_class: 0,
                            fcs_ok: true,
                            air_interface_encryption: None,
                        },
                    ),
                ),
            );
        }
        assert(queue@ =~= q + udata_msgs(st, key, fv));
    }

    /// Serves an AL-ACK or AL-RNR; see [`after_ack_rnr`].
    pub fn on_al_ack_rnr(&mut self, key: AlLinkKey, pdu: AlAckAlRnr)
        requires
            old(self)@.wf(),
        ensures
            final(self)@ == after_ack_rnr(old(self)@, key, pdu@),
            final(self)@.wf(),
    {
        let ghost st = self@;
        let ghost link = find_link(st.links, key);
        let i: usize = match self.al_links.find(&key) {
            Some(i) => i,
            None => {
                return;
            },
        };
        let phase: AlPhase = self.al_links.links[i].phase;
        if phase != AlPhase::Established && phase != AlPhase::FlowControlled {
            return;
        }
        let now: TdmaTime = self.dltime;
        assert(st.links[i as int].wf());
        let l: &mut AlLink = &mut self.al_links.links[i];
        if pdu.kind == AlAckAlRnrKind::Rnr {
            l.phase = AlPhase::FlowControlled;
            l.t_rnr_start = Some(now);
            l.last_setup_echo = None;
        } else if phase == AlPhase::FlowControlled {
            l.phase = AlPhase::Established;
            l.t_rnr_start = None;
        }
        let ghost flow = l@;
        let delivered: Vec<u8> = l.process_ack_blocks(&pdu);
        proof {
            let n = pdu@.blocks.len();
            let changed = AlLinkView {
                outstanding: window_after_blocks(link->0.outstanding, pdu@.blocks, n),
                ..flow
            };
            assert(self.al_links@ =~= st.links.update(i as int, changed));
            Self::lemma_link_changed(st.links, self.al_links@, key, i as int, changed);
        }
        let ghost st1 = self@;
        let mut k: usize = 0;
        assert(self@ =~= st1.with_events(delivered_events(key, delivered@.take(0))));
        while k < delivered.len()
            invariant
                k <= delivered@.len(),
                self@ == st1.with_events(delivered_events(key, delivered@.take(k as int))),
            decreases delivered@.len() - k,
        {
            self.emit_delivery(key.make_event(delivered[k], AlDeliveryOutcome::Delivered));
            k = k + 1;
            assert(self@ =~= st1.with_events(delivered_events(key, delivered@.take(k as int))));
        }
        assert(delivered@.take(k as int) =~= delivered@);
    }
}

} // verus!
