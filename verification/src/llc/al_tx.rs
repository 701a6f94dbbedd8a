//! Transmission on the advanced links: TL-SDUs from above and the work of a tick.

use crate::al_events::AlDeliveryEvent;
use crate::llc::al_link::{
    al_msg, cleared_flags, make_al_raw_sap_msg, octet_views, sdu_views, AlLink, AlLinkKey,
    AlLinkView, AlPhase, LinkRoute, OutstandingSdu, OutstandingView,
};
use crate::llc::al_rx::{find_slot, has_slot, is_duplicate};
use crate::llc::al_tick::{lemma_link_tick_wf, link_tick, link_tick_removes, next_id};
use crate::llc::config::LlcConfig;
use crate::llc::entity::{Llc, LlcView};
use crate::llc::link_table::{find_link, lemma_put_link, link_views, links_wf};
use crate::llc::pdus::SegmentationError;
use crate::saps::{
    bit_views, copy_bits, msg_views, segments_view, LlcPdu, LlcPduView, MessageQueue, ReporterId,
    SapMsg, SapMsgView, TlaReqAl, TlaReqAlView, TxReporter, TxState,
};
use crate::tdma::TdmaTime;
use vstd::prelude::*;

verus! {

/// Why a TL-SDU is not taken for transmission.
#[derive(Debug, Clone, Copy, PartialEq, Eq, Structural)]
pub enum AlError {
    UnknownLink(AlLinkKey),
    WindowFull,
    NotEstablished,
    SduTooLarge { got: usize, max: u16 },
    SegmentationFailed(SegmentationError),
    InvalidState { expected: AlPhase, found: AlPhase },
}

/// How the segmenter is to cut a TL-SDU.
#[derive(Debug, Clone, Copy, PartialEq, Eq, Structural)]
pub struct SegmenterConfig {
    pub segment_payload_bits: usize,
    pub starting_n_s: u8,
    pub request_ack_on_final: bool,
    pub request_ack_on_data: bool,
}

/// What is to be done with a received segment before the LLC takes it in.
#[derive(Debug, Clone, Copy, PartialEq, Eq, Structural)]
pub enum Reassembly {
    /// Nothing: the LLC will not look at it.
    Skip,
    /// Feed it to a new reassembler.
    Start,
    /// Feed it to the reassembler of its N(S).
    Continue,
}

/// A TL-SDU that found room in the window of its link.
#[derive(Debug)]
pub struct PendingSdu {
    pub key: AlLinkKey,
    pub sdu: Vec<u8>,
}

/// What a [`PendingSdu`] holds.
#[verifier::ext_equal]
pub struct PendingView {
    pub key: AlLinkKey,
    pub sdu: Seq<u8>,
}

impl View for PendingSdu {
    type V = PendingView;

    open spec fn view(&self) -> PendingView {
        PendingView { key: self.key, sdu: self.sdu@ }
    }
}

/// The TL-SDUs of a list, each by what it holds.
pub open spec fn pending_views(s: Seq<PendingSdu>) -> Seq<PendingView> {
    Seq::new(s.len(), |i: int| s[i]@)
}

/// What a tick leaves to be done: the TL-SDUs in `pending` are cut and enqueued first,
/// then the messages go out and the TL-SDUs given up are reported.
#[derive(Debug)]
pub struct AlActivity {
    pub msgs: Vec<SapMsg>,
    pub drops: Vec<AlDeliveryEvent>,
    pub pending: Vec<PendingSdu>,
}

// ---- links by address -----------------------------------------------------------------

/// Link `i` belongs to this address, whatever its number.
pub open spec fn at_address(l: AlLinkView, ssi: u32, link_id: u32, endpoint_id: u32) -> bool {
    l.key.ssi == ssi && l.key.link_id == link_id && l.key.endpoint_id == endpoint_id
}

/// `i` is the first link of this address.
pub open spec fn is_data_link(
    links: Seq<AlLinkView>,
    ssi: u32,
    link_id: u32,
    endpoint_id: u32,
    i: int,
) -> bool {
    &&& 0 <= i < links.len()
    &&& at_address(links[i], ssi, link_id, endpoint_id)
    &&& forall|j: int| 0 <= j < i ==> !at_address(#[trigger] links[j], ssi, link_id, endpoint_id)
}

/// The key of the first link of this address, if there is one.
pub open spec fn data_link(links: Seq<AlLinkView>, ssi: u32, link_id: u32, endpoint_id: u32) -> Option<
    AlLinkKey,
> {
    if exists|i: int| is_data_link(links, ssi, link_id, endpoint_id, i) {
        Some(links[choose|i: int| is_data_link(links, ssi, link_id, endpoint_id, i)].key)
    } else {
        None
    }
}

proof fn lemma_data_link(
    links: Seq<AlLinkView>,
    ssi: u32,
    link_id: u32,
    endpoint_id: u32,
    i: int,
)
    requires
        is_data_link(links, ssi, link_id, endpoint_id, i),
    ensures
        data_link(links, ssi, link_id, endpoint_id) == Some(links[i].key),
{
    let c = choose|j: int| is_data_link(links, ssi, link_id, endpoint_id, j);
    assert(is_data_link(links, ssi, link_id, endpoint_id, c));
    if c < i {
        assert(!at_address(links[c], ssi, link_id, endpoint_id));
    }
    if i < c {
        assert(!at_address(links[i], ssi, link_id, endpoint_id));
    }
}

// ---- enqueueing ---------------------------------------------------------------------------

/// The number `k` steps after `id`.
pub open spec fn id_plus(id: u64, k: int) -> u64 {
    ((id + k) % 0x1_0000_0000_0000_0000) as u64
}

/// The N(S) after `n_s` in a window of the given size.
pub open spec fn n_s_after(n_s: u8, tx_window: u8) -> u8 {
    (((n_s + 1) % 256) % (tx_window + 1)) as u8
}

/// See [`n_s_after`].
fn next_n_s_after(n_s: u8, tx_window: u8) -> (r: u8)
    ensures
        r == n_s_after(n_s, tx_window),
        r <= tx_window,
{
    let m: u16 = tx_window as u16 + 1;
    let k: u16 = (n_s as u16 + 1) % 256;
    (k % m) as u8
}

/// Why a TL-SDU of `len` octets is refused before it is cut, if it is.
pub open spec fn enqueue_refusal(link: Option<AlLinkView>, key: AlLinkKey, len: nat) -> Option<
    AlError,
> {
    match link {
        None => Some(AlError::UnknownLink(key)),
        Some(l) => if !l.is_open() {
            Some(AlError::NotEstablished)
        } else if len > l.max_tl_sdu_octets {
            Some(AlError::SduTooLarge { got: len as usize, max: l.max_tl_sdu_octets })
        } else {
            None
        },
    }
}

/// The window has no room for another TL-SDU.
pub open spec fn window_full(l: AlLinkView) -> bool {
    l.outstanding.len() >= l.effective_tx_sdu_window
}

/// A TL-SDU that enters the window at `now`, under reporters numbered from `id` on. It
/// is sent at once unless the link is flow controlled.
pub open spec fn entering_sdu(l: AlLinkView, segments: Seq<Seq<bool>>, id: u64, now: TdmaTime) -> OutstandingView {
    OutstandingView {
        n_s: l.next_n_s,
        pdus: segments,
        sent_at: if l.phase == AlPhase::Established {
            Some(now)
        } else {
            None
        },
        acked: Seq::new(segments.len(), |k: int| false),
        reporters: Seq::new(segments.len(), |k: int| Some(TxReporter::pending(ReporterId::Llc(id_plus(id, k))))),
        last_segment_tx_at: None,
        retx_count: 0,
        force_retx: false,
    }
}

/// The outcome of enqueueing a TL-SDU.
pub open spec fn enqueue_result(
    st: LlcView,
    key: AlLinkKey,
    len: nat,
    segments: Result<Seq<Seq<bool>>, SegmentationError>,
) -> Result<(), AlError> {
    let link = find_link(st.links, key);
    match enqueue_refusal(link, key, len) {
        Some(e) => Err(e),
        None => if window_full(link->0) {
            Ok(())
        } else {
            match segments {
                Ok(_) => Ok(()),
                Err(e) => Err(AlError::SegmentationFailed(e)),
            }
        },
    }
}

/// The LLC after a TL-SDU has been enqueued: it waits while the window is full, else its
/// segments enter the window under the next N(S). A refused TL-SDU changes nothing.
pub open spec fn after_enqueue(
    st: LlcView,
    key: AlLinkKey,
    sdu: Seq<u8>,
    segments: Result<Seq<Seq<bool>>, SegmentationError>,
) -> LlcView {
    let link = find_link(st.links, key);
    if enqueue_refusal(link, key, sdu.len()) is Some {
        st
    } else if window_full(link->0) {
        st.with_link(AlLinkView { pending_sdus: link->0.pending_sdus.push(sdu), ..link->0 })
    } else {
        match segments {
            Ok(segs) => LlcView {
                next_id: id_plus(st.next_id, segs.len() as int),
                ..st.with_link(
                    AlLinkView {
                        next_n_s: n_s_after(link->0.next_n_s, link->0.tx_window),
                        outstanding: link->0.outstanding.push(
                            entering_sdu(link->0, segs, st.next_id, st.dltime),
                        ),
                        ..link->0
                    },
                )
            },
            Err(_) => st,
        }
    }
}

/// What enqueueing a TL-SDU sends: its segments in order, on an established link with
/// room in its window.
pub open spec fn enqueue_msgs(
    st: LlcView,
    key: AlLinkKey,
    sdu: Seq<u8>,
    segments: Result<Seq<Seq<bool>>, SegmentationError>,
) -> Seq<SapMsgView> {
    let link = find_link(st.links, key);
    if enqueue_refusal(link, key, sdu.len()) is Some || window_full(link->0) || link->0.phase
        != AlPhase::Established {
        Seq::empty()
    } else {
        match segments {
            Ok(segs) => segment_msgs(link->0.route(), segs, st.next_id),
            Err(_) => Seq::empty(),
        }
    }
}

/// The messages for the segments of a TL-SDU, under reporters numbered from `id` on.
pub open spec fn segment_msgs(route: LinkRoute, segs: Seq<Seq<bool>>, id: u64) -> Seq<SapMsgView> {
    Seq::new(
        segs.len(),
        |k: int|
            al_msg(
                route,
                LlcPduView::AlSegment(segs[k]),
                Some(TxReporter::pending(ReporterId::Llc(id_plus(id, k)))),
            ),
    )
}

/// The messages for the segments of an unacknowledged TL-SDU.
pub open spec fn unack_segment_msgs(route: LinkRoute, segs: Seq<Seq<bool>>) -> Seq<SapMsgView> {
    Seq::new(segs.len(), |k: int| al_msg(route, LlcPduView::AlSegment(segs[k]), None))
}

/// The key of the link that a request is for.
pub open spec fn req_key(p: TlaReqAlView) -> AlLinkKey {
    AlLinkKey::of(p.main_address, p.link_id, p.endpoint_id, p.al_link_number)
}

/// The LLC after a TL-UNITDATA request for an advanced link: an N(S) is used up, even if
/// the TL-SDU could not be cut.
pub open spec fn after_tlunitdata_req_al(st: LlcView, p: TlaReqAlView) -> LlcView {
    match find_link(st.links, req_key(p)) {
        Some(l) => if l.phase == AlPhase::Established {
            st.with_link(AlLinkView { next_n_s: n_s_after(l.next_n_s, l.tx_window), ..l })
        } else {
            st
        },
        None => st,
    }
}

/// What a TL-UNITDATA request for an advanced link sends.
pub open spec fn tlunitdata_req_al_msgs(st: LlcView, p: TlaReqAlView) -> Seq<SapMsgView> {
    match (find_link(st.links, req_key(p)), p.segments) {
        (Some(l), Ok(segs)) => if l.phase == AlPhase::Established {
            unack_segment_msgs(l.route(), segs)
        } else {
            Seq::empty()
        },
        _ => Seq::empty(),
    }
}

// ---- the tick of all links ------------------------------------------------------------------

/// What a tick makes of the first links of the table.
#[verifier::ext_equal]
pub struct TickPass {
    pub links: Seq<AlLinkView>,
    pub msgs: Seq<SapMsgView>,
    pub drops: Seq<AlDeliveryEvent>,
    pub next_id: u64,
}

/// What is to be done with a segment that an address received: nothing where it would be
/// dropped, else the TL-SDU of its N(S) is gone on with or begun.
pub open spec fn reassembly_of(st: LlcView, ssi: u32, link_id: u32, endpoint_id: u32, n_s: u8) -> Reassembly {
    match data_link(st.links, ssi, link_id, endpoint_id) {
        None => Reassembly::Skip,
        Some(key) => {
            let link = find_link(st.links, key);
            if link is None || is_duplicate(link, n_s, st.config) || !link->0.is_open() {
                Reassembly::Skip
            } else if has_slot(link->0.reassemblers, n_s) {
                Reassembly::Continue
            } else {
                Reassembly::Start
            }
        },
    }
}

/// How a TL-SDU for a link is to be cut: under the next N(S) of the link, with an acknowledgement
/// asked for by the last segment only.
pub open spec fn segmenter_of(st: LlcView, key: AlLinkKey) -> Option<SegmenterConfig> {
    match find_link(st.links, key) {
        Some(l) => Some(
            SegmenterConfig {
                segment_payload_bits: st.al_segment_payload_bits,
                starting_n_s: l.next_n_s,
                request_ack_on_final: true,
                request_ack_on_data: false,
            },
        ),
        None => None,
    }
}

/// One tick over the first `n` links; a link that is given up leaves the table.
pub open spec fn tick_pass(st: LlcView, n: nat) -> TickPass
    decreases n,
{
    if n == 0 {
        TickPass { links: Seq::empty(), msgs: Seq::empty(), drops: Seq::empty(), next_id: st.next_id }
    } else {
        let before = tick_pass(st, (n - 1) as nat);
        let l = st.links[n - 1];
        let t = link_tick(l, st.dltime, st.config, before.next_id);
        TickPass {
            links: if link_tick_removes(l, st.dltime, st.config) {
                before.links
            } else {
                before.links.push(t.link)
            },
            msgs: before.msgs + t.msgs,
            drops: before.drops + t.drops,
            next_id: t.next_id,
        }
    }
}

/// The TL-SDUs that wait on a link may try to enter its window.
pub open spec fn flushes(l: AlLinkView) -> bool {
    l.phase == AlPhase::Established && !window_full(l)
}

/// The links after the TL-SDUs that may enter a window have been taken out.
pub open spec fn after_flush(links: Seq<AlLinkView>) -> Seq<AlLinkView> {
    Seq::new(
        links.len(),
        |i: int|
            if flushes(links[i]) {
                AlLinkView { pending_sdus: Seq::empty(), ..links[i] }
            } else {
                links[i]
            },
    )
}

/// The TL-SDUs that wait on one link, with its key.
pub open spec fn waiting(l: AlLinkView) -> Seq<PendingView> {
    Seq::new(
        l.pending_sdus.len(),
        |i: int| PendingView { key: l.key, sdu: l.pending_sdus[i] },
    )
}

/// The TL-SDUs of the first `n` links that may enter a window, in order.
pub open spec fn flushed(links: Seq<AlLinkView>, n: nat) -> Seq<PendingView>
    decreases n,
{
    if n == 0 {
        Seq::empty()
    } else if flushes(links[n - 1]) {
        flushed(links, (n - 1) as nat) + waiting(links[n - 1])
    } else {
        flushed(links, (n - 1) as nat)
    }
}

/// The LLC after the tick of its links.
pub open spec fn after_al_tick(st: LlcView) -> LlcView {
    let pass = tick_pass(st, st.links.len());
    LlcView { links: after_flush(pass.links), next_id: pass.next_id, ..st }
}

/// A tick keeps the table well formed: every key that is left was there before.
pub proof fn lemma_tick_pass_wf(st: LlcView, n: nat)
    requires
        links_wf(st.links),
        n <= st.links.len(),
    ensures
        links_wf(tick_pass(st, n).links),
        tick_pass(st, n).links.len() <= n,
        forall|k: int|
            0 <= k < tick_pass(st, n).links.len() ==> exists|i: int|
                0 <= i < n && (#[trigger] st.links[i]).key == (
                #[trigger] tick_pass(st, n).links[k]).key,
    decreases n,
{
    if n > 0 {
        lemma_tick_pass_wf(st, (n - 1) as nat);
        let p = tick_pass(st, (n - 1) as nat);
        let before = p.links;
        let after = tick_pass(st, n).links;
        let l = st.links[n - 1];
        lemma_link_tick_wf(l, st.dltime, st.config, p.next_id);
        assert forall|k: int| 0 <= k < after.len() implies exists|i: int|
            0 <= i < n && (#[trigger] st.links[i]).key == (#[trigger] after[k]).key by {
            if k < before.len() {
                assert(after[k] == before[k]);
                let i = choose|i: int|
                    0 <= i < n - 1 && (#[trigger] st.links[i]).key == before[k].key;
                assert(st.links[i].key == after[k].key);
            } else {
                assert(st.links[n - 1].key == after[k].key);
            }
        }
        assert forall|a: int, b: int| 0 <= a < b < after.len() implies (#[trigger] after[a]).key
            != (#[trigger] after[b]).key by {
            assert(after[a] == before[a]);
            if b < before.len() {
                assert(after[b] == before[b]);
            } else {
                let i = choose|i: int|
                    0 <= i < n - 1 && (#[trigger] st.links[i]).key == before[a].key;
                assert(st.links[i].key != st.links[n - 1].key);
            }
        }
        assert forall|a: int| 0 <= a < after.len() implies (#[trigger] after[a]).wf() by {
            if a < before.len() {
                assert(after[a] == before[a]);
            }
        }
    }
}

// ---- reports from the MAC ----------------------------------------------------------------------

/// A reporter after the MAC reported `state` for number `id`.
pub open spec fn reported(r: TxReporter, id: ReporterId, state: TxState) -> TxReporter {
    if r.id == id {
        TxReporter { state, ..r }
    } else {
        r
    }
}

/// The reporter slots of a TL-SDU after a report.
pub open spec fn slots_reported(s: Seq<Option<TxReporter>>, id: ReporterId, state: TxState) -> Seq<
    Option<TxReporter>,
> {
    Seq::new(
        s.len(),
        |i: int|
            match s[i] {
                Some(r) => Some(reported(r, id, state)),
                None => None,
            },
    )
}

/// The window of a link after a report.
pub open spec fn window_reported(s: Seq<OutstandingView>, id: ReporterId, state: TxState) -> Seq<
    OutstandingView,
> {
    Seq::new(
        s.len(),
        |i: int| OutstandingView { reporters: slots_reported(s[i].reporters, id, state), ..s[i] },
    )
}

/// The links after a report.
pub open spec fn links_reported(s: Seq<AlLinkView>, id: ReporterId, state: TxState) -> Seq<AlLinkView> {
    Seq::new(
        s.len(),
        |i: int|
            AlLinkView { outstanding: window_reported(s[i].outstanding, id, state), ..s[i] },
    )
}

impl OutstandingSdu {
    /// Notes what the MAC reported.
    fn note_report(&mut self, id: ReporterId, state: TxState)
        ensures
            final(self)@ == (OutstandingView {
                reporters: slots_reported(old(self)@.reporters, id, state),
                ..old(self)@
            }),
    {
        let ghost s = self@;
        let n: usize = self.segment_reporters.len();
        let mut i: usize = 0;
        while i < n
            invariant
                i <= n,
                n == s.reporters.len(),
                self@ == (OutstandingView { reporters: self@.reporters, ..s }),
                self@.reporters.len() == n,
                forall|j: int|
                    0 <= j < i ==> #[trigger] self@.reporters[j] == slots_reported(
                        s.reporters,
                        id,
                        state,
                    )[j],
                forall|j: int| i <= j < n ==> #[trigger] self@.reporters[j] == s.reporters[j],
            decreases n - i,
        {
            assert(self@.reporters[i as int] == s.reporters[i as int]);
            if let Some(r) = self.segment_reporters[i] {
                if r.id == id {
                    self.segment_reporters.set(i, Some(TxReporter { id, state }));
                }
            }
            assert(self@.reporters[i as int] == slots_reported(s.reporters, id, state)[i as int]);
            i = i + 1;
        }
        assert(self@.reporters =~= slots_reported(s.reporters, id, state));
    }
}

impl AlLink {
    /// Notes what the MAC reported.
    fn note_report(&mut self, id: ReporterId, state: TxState)
        requires
            old(self)@.wf(),
        ensures
            final(self)@ == (AlLinkView {
                outstanding: window_reported(old(self)@.outstanding, id, state),
                ..old(self)@
            }),
            final(self)@.wf(),
    {
        let ghost l = self@;
        let ghost done = window_reported(l.outstanding, id, state);
        let n: usize = self.outstanding_sdus.len();
        let mut i: usize = 0;
        assert(self@.outstanding =~= done.take(0) + l.outstanding.skip(0));
        while i < n
            invariant
                i <= n,
                n == l.outstanding.len(),
                done == window_reported(l.outstanding, id, state),
                self.outstanding_sdus@.len() == n,
                self@ == (AlLinkView {
                    outstanding: done.take(i as int) + l.outstanding.skip(i as int),
                    ..l
                }),
            decreases n - i,
        {
            let ghost views = sdu_views(self.outstanding_sdus@);
            assert(views[i as int] == l.outstanding[i as int]);
            assert(self.outstanding_sdus@[i as int]@ == views[i as int]);
            self.outstanding_sdus[i].note_report(id, state);
            assert(sdu_views(self.outstanding_sdus@) =~= views.update(i as int, done[i as int]));
            assert(self@.outstanding =~= done.take(i + 1) + l.outstanding.skip(i + 1));
            i = i + 1;
            assert(self@ =~= (AlLinkView {
                outstanding: done.take(i as int) + l.outstanding.skip(i as int),
                ..l
            }));
        }
        assert(self@.outstanding =~= done);
        assert(self@ =~= (AlLinkView { outstanding: done, ..l }));
        assert forall|k: int| 0 <= k < done.len() implies (#[trigger] done[k]).wf() by {
            assert(l.outstanding[k].wf());
        }
    }
}

impl Llc {
    /// The key of the first link of an address; AL-DATA and AL-ACK carry no link number.
    pub fn find_al_link_for_data(&self, ssi: u32, link_id: u32, endpoint_id: u32) -> (r: Option<
        AlLinkKey,
    >)
        ensures
            r == data_link(self@.links, ssi, link_id, endpoint_id),
    {
        let ghost links = self@.links;
        let mut i: usize = 0;
        while i < self.al_links.links.len()
            invariant
                i <= self.al_links.links@.len(),
                links == self@.links,
                forall|j: int|
                    0 <= j < i ==> !at_address(#[trigger] links[j], ssi, link_id, endpoint_id),
            decreases self.al_links.links@.len() - i,
        {
            let k: AlLinkKey = self.al_links.links[i].key;
            assert(links[i as int].key == k);
            if k.ssi == ssi && k.link_id == link_id && k.endpoint_id == endpoint_id {
                proof {
                    lemma_data_link(links, ssi, link_id, endpoint_id, i as int);
                }
                return Some(k);
            }
            i = i + 1;
        }
        None
    }

    /// What is to be done with an AL-DATA or AL-FINAL from an address before it is handed
    /// to the LLC.
    pub fn data_reassembly(&self, ssi: u32, link_id: u32, endpoint_id: u32, n_s: u8) -> (r:
        Reassembly)
        requires
            self@.wf(),
        ensures
            r == reassembly_of(self@, ssi, link_id, endpoint_id, n_s),
    {
        let key: AlLinkKey = match self.find_al_link_for_data(ssi, link_id, endpoint_id) {
            Some(k) => k,
            None => {
                return Reassembly::Skip;
            },
        };
        let l: &AlLink = match self.al_links.get(&key) {
            Some(l) => l,
            None => {
                return Reassembly::Skip;
            },
        };
        if self.config.advanced_link.dedupe_completed_ns && crate::llc::al_link::octet_in(
            &l.recently_delivered_ns,
            n_s,
        ) {
            return Reassembly::Skip;
        }
        if l.phase != AlPhase::Established && l.phase != AlPhase::FlowControlled {
            return Reassembly::Skip;
        }
        match find_slot(&l.reassemblers, n_s) {
            Some(i) => {
                assert(l@.reassemblers[i as int].n_s == n_s);
                Reassembly::Continue
            },
            None => Reassembly::Start,
        }
    }

    /// How a TL-SDU for a link is to be cut.
    pub fn segmenter_config(&self, key: AlLinkKey) -> (r: Option<SegmenterConfig>)
        requires
            self@.wf(),
        ensures
            r == segmenter_of(self@, key),
    {
        match self.al_links.get(&key) {
            Some(l) => Some(
                SegmenterConfig {
                    segment_payload_bits: self.al_segment_payload_bits,
                    starting_n_s: l.next_n_s,
                    request_ack_on_final: true,
                    request_ack_on_data: false,
                },
            ),
            None => None,
        }
    }

    /// Enqueues a TL-SDU that was cut into `segments`; see [`after_enqueue`],
    /// [`enqueue_msgs`] and [`enqueue_result`].
    pub fn enqueue_al_sdu(
        &mut self,
        queue: &mut MessageQueue,
        key: AlLinkKey,
        sdu: Vec<u8>,
        segments: Result<Vec<Vec<bool>>, SegmentationError>,
    ) -> (r: Result<(), AlError>)
        requires
            old(self)@.wf(),
        ensures
            final(self)@ == after_enqueue(old(self)@, key, sdu@, segments_view(segments)),
            final(self)@.wf(),
            final(queue)@ == old(queue)@ + enqueue_msgs(
                old(self)@,
                key,
                sdu@,
                segments_view(segments),
            ),
            r == enqueue_result(old(self)@, key, sdu@.len(), segments_view(segments)),
    {
        let ghost st = self@;
        let ghost q = queue@;
        let ghost link = find_link(st.links, key);
        assert(q + Seq::<SapMsgView>::empty() =~= q);
        let i: usize = match self.al_links.find(&key) {
            Some(i) => i,
            None => {
                return Err(AlError::UnknownLink(key));
            },
        };
        assert(st.links[i as int].wf());
        let phase: AlPhase = self.al_links.links[i].phase;
        if phase != AlPhase::Established && phase != AlPhase::FlowControlled {
            return Err(AlError::NotEstablished);
        }
        let max: u16 = self.al_links.links[i].max_tl_sdu_octets;
        if sdu.len() > max as usize {
            return Err(AlError::SduTooLarge { got: sdu.len(), max });
        }
        if self.al_links.links[i].outstanding_sdus.len()
            >= self.al_links.links[i].effective_tx_sdu_window as usize {
            let ghost changed = AlLinkView {
                pending_sdus: link->0.pending_sdus.push(sdu@),
                ..link->0
            };
            self.al_links.links[i].pending_sdus.push(sdu);
            proof {
                assert(octet_views(self.al_links.links@[i as int].pending_sdus@)
                    =~= changed.pending_sdus);
                assert(self.al_links@ =~= st.links.update(i as int, changed));
                lemma_put_link(st.links, changed);
            }
            return Ok(());
        }
        let pdus: Vec<Vec<bool>> = match segments {
            Ok(v) => v,
            Err(e) => {
                return Err(AlError::SegmentationFailed(e));
            },
        };
        let ghost segs = bit_views(pdus@);
        let ghost id0 = st.next_id;
        let n: usize = pdus.len();
        let established: bool = phase == AlPhase::Established;
        let route: LinkRoute = self.al_links.links[i].route();
        let mut reporters: Vec<Option<TxReporter>> = Vec::new();
        let mut id: u64 = self.next_reporter_id;
        let mut k: usize = 0;
        while k < n
            invariant
                k <= n,
                n == pdus@.len(),
                segs == bit_views(pdus@),
                id == id_plus(id0, k as int),
                reporters@ =~= Seq::new(
                    k as nat,
                    |j: int| Some(TxReporter::pending(ReporterId::Llc(id_plus(id0, j)))),
                ),
                queue@ =~= q + (if established {
                    segment_msgs(route, segs, id0).take(k as int)
                } else {
                    Seq::empty()
                }),
            decreases n - k,
        {
            let reporter: TxReporter = TxReporter::new(ReporterId::Llc(id));
            if established {
                let bits: Vec<bool> = copy_bits(&pdus[k]);
                assert(bits@ == segs[k as int]);
                let msg: SapMsg = make_al_raw_sap_msg(
                    route,
                    LlcPdu::AlSegment(bits),
                    Some(reporter),
                );
                assert(msg@ == segment_msgs(route, segs, id0)[k as int]);
                queue.push_back(msg);
            }
            reporters.push(Some(reporter));
            id = next_id(id);
            k = k + 1;
        }
        assert(segment_msgs(route, segs, id0).take(n as int) =~= segment_msgs(route, segs, id0));
        self.next_reporter_id = id;
        let sent_at: Option<TdmaTime> = if established {
            Some(self.dltime)
        } else {
            None
        };
        let entry = OutstandingSdu {
            n_s: self.al_links.links[i].next_n_s,
            pdus,
            sent_at,
            acked_segments: cleared_flags(n),
            segment_reporters: reporters,
            last_segment_tx_at: None,
            retx_count: 0,
            force_retx: false,
        };
        let ghost entering = entering_sdu(link->0, segs, id0, st.dltime);
        assert(entry@ =~= entering);
        let l: &mut AlLink = &mut self.al_links.links[i];
        l.next_n_s = next_n_s_after(l.next_n_s, l.tx_window);
        l.outstanding_sdus.push(entry);
        let ghost changed = AlLinkView {
            next_n_s: n_s_after(link->0.next_n_s, link->0.tx_window),
            outstanding: link->0.outstanding.push(entering),
            ..link->0
        };
        proof {
            assert(sdu_views(l.outstanding_sdus@) =~= changed.outstanding);
            assert(l@ =~= changed);
            assert(self.al_links@ =~= st.links.update(i as int, changed));
            assert(changed.wf());
            lemma_put_link(st.links, changed);
        }
        assert(self@ =~= after_enqueue(st, key, sdu@, Ok(segs)));
        Ok(())
    }

    /// Serves a TL-DATA request for an advanced link: the TL-SDU is enqueued, or dropped
    /// when it is refused.
    pub fn rx_tla_tldata_req_al(&mut self, queue: &mut MessageQueue, prim: TlaReqAl)
        requires
            old(self)@.wf(),
        ensures
            final(self)@ == after_enqueue(
                old(self)@,
                req_key(prim@),
                prim@.tl_sdu,
                prim@.segments,
            ),
            final(self)@.wf(),
            final(queue)@ == old(queue)@ + enqueue_msgs(
                old(self)@,
                req_key(prim@),
                prim@.tl_sdu,
                prim@.segments,
            ),
    {
        let key: AlLinkKey = AlLinkKey::from_prim(
            prim.main_address,
            prim.link_id,
            prim.endpoint_id,
            prim.al_link_number,
        );
        let _outcome: Result<(), AlError> = self.enqueue_al_sdu(
            queue,
            key,
            prim.tl_sdu,
            prim.segments,
        );
    }

    /// Serves a TL-UNITDATA request for an advanced link; see
    /// [`after_tlunitdata_req_al`] and [`tlunitdata_req_al_msgs`].
    pub fn rx_tla_tlunitdata_req_al(&mut self, queue: &mut MessageQueue, prim: TlaReqAl)
        requires
            old(self)@.wf(),
        ensures
            final(self)@ == after_tlunitdata_req_al(old(self)@, prim@),
            final(self)@.wf(),
            final(queue)@ == old(queue)@ + tlunitdata_req_al_msgs(old(self)@, prim@),
    {
        let ghost st = self@;
        let ghost q = queue@;
        let ghost p = prim@;
        assert(q + Seq::<SapMsgView>::empty() =~= q);
        let key: AlLinkKey = AlLinkKey::from_prim(
            prim.main_address,
            prim.link_id,
            prim.endpoint_id,
            prim.al_link_number,
        );
        let ghost link = find_link(st.links, key);
        let i: usize = match self.al_links.find(&key) {
            Some(i) => i,
            None => {
                return;
            },
        };
        if self.al_links.links[i].phase != AlPhase::Established {
            return;
        }
        assert(st.links[i as int].wf());
        let route: LinkRoute = self.al_links.links[i].route();
        let n_s: u8 = self.al_links.links[i].next_n_s;
        let tx_window: u8 = self.al_links.links[i].tx_window;
        self.al_links.links[i].next_n_s = next_n_s_after(n_s, tx_window);
        let ghost changed = AlLinkView { next_n_s: n_s_after(n_s, tx_window), ..link->0 };
        proof {
            assert(self.al_links@ =~= st.links.update(i as int, changed));
            lemma_put_link(st.links, changed);
        }
        let pdus: Vec<Vec<bool>> = match prim.segments {
            Ok(v) => v,
            Err(_) => {
                return;
            },
        };
        let ghost segs = bit_views(pdus@);
        let n: usize = pdus.len();
        let mut k: usize = 0;
        while k < n
            invariant
                k <= n,
                n == pdus@.len(),
                segs == bit_views(pdus@),
                queue@ =~= q + unack_segment_msgs(route, segs).take(k as int),
            decreases n - k,
        {
            let bits: Vec<bool> = copy_bits(&pdus[k]);
            assert(bits@ == segs[k as int]);
            queue.push_back(make_al_raw_sap_msg(route, LlcPdu::AlSegment(bits), None));
            k = k + 1;
        }
        assert(unack_segment_msgs(route, segs).take(n as int) =~= unack_segment_msgs(route, segs));
    }

    /// Runs the tick of every link. What it leaves to be done is returned: the TL-SDUs that
    /// may enter a window are to be cut and enqueued, then [`Llc::finish_al_activity`] is to
    /// be called with the rest.
    pub fn submit_al_activity_to_umac(&mut self) -> (r: AlActivity)
        requires
            old(self)@.wf(),
        ensures
            final(self)@ == after_al_tick(old(self)@),
            final(self)@.wf(),
            msg_views(r.msgs@) == tick_pass(old(self)@, old(self)@.links.len()).msgs,
            r.drops@ == tick_pass(old(self)@, old(self)@.links.len()).drops,
            pending_views(r.pending@) == flushed(
                tick_pass(old(self)@, old(self)@.links.len()).links,
                tick_pass(old(self)@, old(self)@.links.len()).links.len(),
            ),
    {
        let ghost st = self@;
        let now: TdmaTime = self.dltime;
        let cfg: LlcConfig = self.config;
        let mut msgs: Vec<SapMsg> = Vec::new();
        let mut drops: Vec<AlDeliveryEvent> = Vec::new();
        let mut todo: Vec<AlLink> = Vec::new();
        std::mem::swap(&mut todo, &mut self.al_links.links);
        let ghost total = todo@.len();
        let ghost mut n: nat = 0;
        proof {
            assert(link_views(todo@) =~= st.links.skip(0));
            assert(self.al_links@ =~= tick_pass(st, 0).links);
            assert(msg_views(msgs@) =~= tick_pass(st, 0).msgs);
            assert(drops@ =~= tick_pass(st, 0).drops);
        }
        while todo.len() > 0
            invariant
                st.wf(),
                n <= total,
                total == st.links.len(),
                now == st.dltime,
                cfg == st.config,
                link_views(todo@) == st.links.skip(n as int),
                self@ == (LlcView {
                    links: tick_pass(st, n).links,
                    next_id: tick_pass(st, n).next_id,
                    ..st
                }),
                msg_views(msgs@) == tick_pass(st, n).msgs,
                drops@ == tick_pass(st, n).drops,
            decreases todo@.len(),
        {
            let ghost views = link_views(todo@);
            let ghost l = st.links[n as int];
            let ghost before = tick_pass(st, n);
            let ghost after = tick_pass(st, n + 1);
            proof {
                assert(views.len() == todo@.len());
                assert(views[0] == st.links.skip(n as int)[0]);
                assert(todo@[0]@ == l);
                assert(l.wf());
            }
            let mut link: AlLink = todo.remove(0);
            assert(link_views(todo@) =~= st.links.skip(n as int + 1)) by {
                assert(link_views(todo@) =~= views.remove(0));
            }
            let (id, removed): (u64, bool) = link.tick(
                now,
                &cfg,
                self.next_reporter_id,
                &mut msgs,
                &mut drops,
            );
            self.next_reporter_id = id;
            let ghost links_before = self.al_links@;
            if !removed {
                self.al_links.links.push(link);
                assert(self.al_links@ =~= links_before.push(link@));
            }
            proof {
                n = n + 1;
            }
            assert(self@ =~= (LlcView {
                links: tick_pass(st, n).links,
                next_id: tick_pass(st, n).next_id,
                ..st
            }));
        }
        proof {
            assert(link_views(todo@).len() == 0);
            assert(n == total);
            lemma_tick_pass_wf(st, total);
        }
        let pending: Vec<PendingSdu> = self.take_flushable();
        AlActivity { msgs, drops, pending }
    }

    /// Takes out the TL-SDUs that may enter a window.
    fn take_flushable(&mut self) -> (r: Vec<PendingSdu>)
        requires
            old(self)@.wf(),
        ensures
            final(self)@ == (LlcView { links: after_flush(old(self)@.links), ..old(self)@ }),
            final(self)@.wf(),
            pending_views(r@) == flushed(old(self)@.links, old(self)@.links.len()),
    {
        let ghost st = self@;
        let ghost links = st.links;
        let ghost done = after_flush(links);
        let n: usize = self.al_links.links.len();
        let mut pending: Vec<PendingSdu> = Vec::new();
        let mut i: usize = 0;
        assert(self@.links =~= done.take(0) + links.skip(0));
        assert(pending_views(pending@) =~= flushed(links, 0));
        while i < n
            invariant
                i <= n,
                n == links.len(),
                links == st.links,
                done == after_flush(links),
                self.al_links.links@.len() == n,
                self@ == (LlcView { links: done.take(i as int) + links.skip(i as int), ..st }),
                pending_views(pending@) == flushed(links, i as nat),
            decreases n - i,
        {
            let ghost views = link_views(self.al_links.links@);
            let ghost l = links[i as int];
            proof {
                assert(views[i as int] == l);
                assert(self.al_links.links@[i as int]@ == l);
            }
            if self.al_links.links[i].phase == AlPhase::Established
                && self.al_links.links[i].outstanding_sdus.len()
                < self.al_links.links[i].effective_tx_sdu_window as usize {
                let key: AlLinkKey = self.al_links.links[i].key;
                let mut sdus: Vec<Vec<u8>> = Vec::new();
                std::mem::swap(&mut sdus, &mut self.al_links.links[i].pending_sdus);
                let ghost all = octet_views(sdus@);
                let ghost p0 = pending_views(pending@);
                let ghost mut k: int = 0;
                assert(all == l.pending_sdus);
                assert(octet_views(sdus@) =~= all.skip(0));
                assert(p0 =~= p0 + waiting(l).take(0));
                while sdus.len() > 0
                    invariant
                        0 <= k <= all.len(),
                        all == l.pending_sdus,
                        key == l.key,
                        octet_views(sdus@) == all.skip(k),
                        pending_views(pending@) == p0 + waiting(l).take(k),
                    decreases sdus@.len(),
                {
                    let ghost rest = octet_views(sdus@);
                    let ghost pend = pending@;
                    proof {
                        assert(rest.len() == sdus@.len());
                        assert(rest[0] == all.skip(k)[0]);
                        assert(sdus@[0]@ == all[k]);
                    }
                    let sdu: Vec<u8> = sdus.remove(0);
                    assert(octet_views(sdus@) =~= all.skip(k + 1)) by {
                        assert(octet_views(sdus@) =~= rest.remove(0));
                    }
                    let entry = PendingSdu { key, sdu };
                    pending.push(entry);
                    proof {
                        assert(pending_views(pending@) =~= pending_views(pend).push(entry@));
                        assert(waiting(l).take(k + 1) =~= waiting(l).take(k).push(waiting(l)[k]));
                        k = k + 1;
                        assert(pending_views(pending@) =~= p0 + waiting(l).take(k));
                    }
                }
                proof {
                    assert(octet_views(sdus@).len() == 0);
                    assert(waiting(l).take(k) =~= waiting(l));
                    assert(octet_views(self.al_links.links@[i as int].pending_sdus@) =~= Seq::<
                        Seq<u8>,
                    >::empty());
                    assert(self.al_links.links@[i as int]@ =~= done[i as int]);
                }
            }
            proof {
                assert(link_views(self.al_links.links@) =~= views.update(i as int, done[i as int]));
                assert(self@.links =~= done.take(i + 1) + links.skip(i + 1));
            }
            i = i + 1;
            assert(self@ =~= (LlcView { links: done.take(i as int) + links.skip(i as int), ..st }));
        }
        proof {
            assert(self@.links =~= done);
            assert forall|a: int, b: int| 0 <= a < b < done.len() implies (#[trigger] done[a]).key
                != (#[trigger] done[b]).key by {
                assert(links[a].key != links[b].key);
            }
            assert forall|a: int| 0 <= a < done.len() implies (#[trigger] done[a]).wf() by {
                assert(links[a].wf());
            }
        }
        pending
    }

    /// Sends what a tick left to be sent and reports the TL-SDUs that it gave up. Returns
    /// true when a message went out.
    pub fn finish_al_activity(
        &mut self,
        queue: &mut MessageQueue,
        msgs: Vec<SapMsg>,
        drops: &Vec<AlDeliveryEvent>,
    ) -> (r: bool)
        requires
            old(self)@.wf(),
        ensures
            final(self)@ == old(self)@.with_events(drops@),
            final(self)@.wf(),
            final(queue)@ == old(queue)@ + msg_views(msgs@),
            r == (msgs@.len() > 0),
    {
        let had: bool = msgs.len() > 0;
        queue.append(msgs);
        self.emit_deliveries(drops);
        had
    }

    /// Notes what the MAC reported for a message. A report on a basic-link message that was
    /// never handed down is left alone.
    pub fn on_tx_report(&mut self, id: ReporterId, state: TxState)
        requires
            old(self)@.wf(),
        ensures
            final(self)@ == crate::llc::dispatch::after_report(old(self)@, id, state),
            final(self)@.wf(),
    {
        self.note_outbound_report(id, state);
        let ghost st = self@;
        let ghost links = st.links;
        let ghost done = links_reported(links, id, state);
        let n: usize = self.al_links.links.len();
        let mut i: usize = 0;
        assert(self@.links =~= done.take(0) + links.skip(0));
        while i < n
            invariant
                i <= n,
                n == links.len(),
                st.wf(),
                links == st.links,
                done == links_reported(links, id, state),
                self.al_links.links@.len() == n,
                self@ == (LlcView { links: done.take(i as int) + links.skip(i as int), ..st }),
            decreases n - i,
        {
            let ghost views = link_views(self.al_links.links@);
            proof {
                assert(views[i as int] == links[i as int]);
                assert(self.al_links.links@[i as int]@ == links[i as int]);
                assert(links[i as int].wf());
            }
            self.al_links.links[i].note_report(id, state);
            proof {
                assert(link_views(self.al_links.links@) =~= views.update(i as int, done[i as int]));
                assert(self@.links =~= done.take(i + 1) + links.skip(i + 1));
            }
            i = i + 1;
            assert(self@ =~= (LlcView { links: done.take(i as int) + links.skip(i as int), ..st }));
        }
        proof {
            assert(self@.links =~= done);
            assert forall|a: int, b: int| 0 <= a < b < done.len() implies (#[trigger] done[a]).key
                != (#[trigger] done[b]).key by {
                assert(links[a].key != links[b].key);
            }
            assert forall|a: int| 0 <= a < done.len() implies (#[trigger] done[a]).wf() by {
                assert(links[a].wf());
                assert forall|k: int| 0 <= k < done[a].outstanding.len() implies (
                #[trigger] done[a].outstanding[k]).wf() by {
                    assert(links[a].outstanding[k].wf());
                }
            }
        }
    }
}

} // verus!
