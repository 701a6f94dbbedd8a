//! State of one advanced link.

use crate::al_events::{AlDeliveryEvent, AlDeliveryOutcome};
use crate::llc::pdus::{
    AckBlockView, AckLength, AcknowledgementBlock, AdvancedLinkService, AlReconnect, AlSetup, SR,
};
use crate::saps::{
    bit_views, tma_req_msg, LlcPdu, LlcPduView, SapMsg, SapMsgView, TetraAddress, TmaReqView, TmaUnitdataReq,
    TxParams, TxReporter, make_tma_req,
};
use crate::tdma::TdmaTime;
use vstd::prelude::*;

verus! {

/// Identifies one advanced link.
#[derive(Debug, Clone, Copy, PartialEq, Eq, Hash, Structural)]
pub struct AlLinkKey {
    /// SSI of the peer.
    pub ssi: u32,
    pub link_id: u32,
    pub endpoint_id: u32,
    /// Link number (N.261).
    pub n261: u8,
}

impl AlLinkKey {
    /// The key of link `n261` of the peer behind a MAC primitive.
    pub fn from_prim(main_address: TetraAddress, link_id: u32, endpoint_id: u32, n261: u8) -> (r:
        AlLinkKey)
        ensures
            r == AlLinkKey::of(main_address, link_id, endpoint_id, n261),
    {
        AlLinkKey { ssi: main_address.ssi, link_id, endpoint_id, n261 }
    }

    /// See [`AlLinkKey::from_prim`].
    pub open spec fn of(main_address: TetraAddress, link_id: u32, endpoint_id: u32, n261: u8) -> AlLinkKey {
        AlLinkKey { ssi: main_address.ssi, link_id, endpoint_id, n261 }
    }

    /// The event that reports `outcome` for TL-SDU `n_s` of this link.
    pub open spec fn event(self, n_s: u8, outcome: AlDeliveryOutcome) -> AlDeliveryEvent {
        AlDeliveryEvent {
            ssi: self.ssi,
            link_id: self.link_id,
            endpoint_id: self.endpoint_id,
            n261: self.n261,
            n_s,
            outcome,
        }
    }

    /// See [`AlLinkKey::event`].
    pub fn make_event(self, n_s: u8, outcome: AlDeliveryOutcome) -> (r: AlDeliveryEvent)
        ensures
            r == self.event(n_s, outcome),
    {
        AlDeliveryEvent {
            ssi: self.ssi,
            link_id: self.link_id,
            endpoint_id: self.endpoint_id,
            n261: self.n261,
            n_s,
            outcome,
        }
    }
}

/// Phase of an advanced link.
#[derive(Debug, Clone, Copy, PartialEq, Eq, Structural)]
pub enum AlPhase {
    Idle,
    /// An AL-SETUP is out, its confirmation has not come.
    SetupPending,
    Established,
    /// An AL-RECONNECT is out, its confirmation has not come.
    ReconnectPending,
    /// An AL-DISC is out, its confirmation has not come.
    DisconnectPending,
    /// The peer is not ready to receive.
    FlowControlled,
}

/// A TL-SDU in the transmit window.
#[derive(Debug)]
pub struct OutstandingSdu {
    /// N(S) of every segment.
    pub n_s: u8,
    /// The encoded segments in S(S) order.
    pub pdus: Vec<Vec<bool>>,
    /// When the TL-SDU was last handed to the MAC; `None` before the first time.
    pub sent_at: Option<TdmaTime>,
    /// For each segment, whether the peer confirmed it.
    pub acked_segments: Vec<bool>,
    /// For each segment, the reporter of its last transmission.
    pub segment_reporters: Vec<Option<TxReporter>>,
    /// When the wait for the acknowledgement began: the tick on which the last
    /// unconfirmed segment was seen on the air. `None` while one is still pending.
    pub last_segment_tx_at: Option<TdmaTime>,
    /// Retransmissions so far.
    pub retx_count: u8,
    /// Send again on the next tick, whatever the timer says.
    pub force_retx: bool,
}

/// What an [`OutstandingSdu`] holds.
#[verifier::ext_equal]
pub struct OutstandingView {
    pub n_s: u8,
    pub pdus: Seq<Seq<bool>>,
    pub sent_at: Option<TdmaTime>,
    pub acked: Seq<bool>,
    pub reporters: Seq<Option<TxReporter>>,
    pub last_segment_tx_at: Option<TdmaTime>,
    pub retx_count: u8,
    pub force_retx: bool,
}

impl View for OutstandingSdu {
    type V = OutstandingView;

    open spec fn view(&self) -> OutstandingView {
        OutstandingView {
            n_s: self.n_s,
            pdus: bit_views(self.pdus@),
            sent_at: self.sent_at,
            acked: self.acked_segments@,
            reporters: self.segment_reporters@,
            last_segment_tx_at: self.last_segment_tx_at,
            retx_count: self.retx_count,
            force_retx: self.force_retx,
        }
    }
}

impl OutstandingView {
    /// There is one flag and one reporter slot for each segment, and every slot is filled: a
    /// segment has a reporter from the moment it enters the window.
    pub open spec fn wf(self) -> bool {
        &&& self.acked.len() == self.pdus.len()
        &&& self.reporters.len() == self.pdus.len()
        &&& forall|i: int| 0 <= i < self.reporters.len() ==> (#[trigger] self.reporters[i]) is Some
    }

    /// The peer has not confirmed every segment.
    pub open spec fn has_unacked(self) -> bool {
        exists|i: int| 0 <= i < self.acked.len() && !#[trigger] self.acked[i]
    }
}

/// A TL-SDU that has been received in part.
#[derive(Debug, Clone, Copy, PartialEq, Eq, Structural)]
pub struct RxSlot {
    pub n_s: u8,
    pub next_expected_ss: u8,
}

/// An unacknowledged TL-SDU that has been received in part.
#[derive(Debug, Clone, Copy, PartialEq, Eq, Structural)]
pub struct UnackSlot {
    pub n_s: u8,
    pub started_at: TdmaTime,
}

/// An advanced link.
#[derive(Debug)]
pub struct AlLink {
    pub key: AlLinkKey,
    pub main_address: TetraAddress,
    pub phase: AlPhase,
    pub service: AdvancedLinkService,
    pub max_tl_sdu_octets: u16,
    /// Negotiated window (N.272); N(S) counts modulo one more than this.
    pub tx_window: u8,
    /// How many TL-SDUs may be outstanding at once. A single-slot peer gets one.
    pub effective_tx_sdu_window: u8,
    /// N.273.
    pub max_sdu_retx: u8,
    /// N.274.
    pub max_segment_retx: u8,
    pub next_n_s: u8,
    pub outstanding_sdus: Vec<OutstandingSdu>,
    /// TL-SDUs under reassembly.
    pub reassemblers: Vec<RxSlot>,
    /// Unacknowledged TL-SDUs under reassembly.
    pub unack_started_at: Vec<UnackSlot>,
    pub t_setup_start: Option<TdmaTime>,
    pub t_disc_start: Option<TdmaTime>,
    pub t_reconnect_start: Option<TdmaTime>,
    pub t_rnr_start: Option<TdmaTime>,
    pub setup_retries: u8,
    pub disc_retries: u8,
    pub reconnect_retries: u8,
    /// AL-SETUP to repeat when its timer runs out.
    pub pending_setup_pdu: Option<AlSetup>,
    /// AL-RECONNECT to repeat when its timer runs out.
    pub pending_reconnect_pdu: Option<AlReconnect>,
    pub carrier_num: u16,
    /// An acknowledgement is due at the end of the tick.
    pub needs_deferred_ack: bool,
    /// TL-SDUs that wait for room in the window.
    pub pending_sdus: Vec<Vec<u8>>,
    /// The echo that accepted the link.
    pub last_setup_echo: Option<AlSetup>,
    /// N(S) of the TL-SDUs delivered last.
    pub recently_delivered_ns: Vec<u8>,
}

/// What an [`AlLink`] holds.
#[verifier::ext_equal]
pub struct AlLinkView {
    pub key: AlLinkKey,
    pub main_address: TetraAddress,
    pub phase: AlPhase,
    pub service: AdvancedLinkService,
    pub max_tl_sdu_octets: u16,
    pub tx_window: u8,
    pub effective_tx_sdu_window: u8,
    pub max_sdu_retx: u8,
    pub max_segment_retx: u8,
    pub next_n_s: u8,
    pub outstanding: Seq<OutstandingView>,
    pub reassemblers: Seq<RxSlot>,
    pub unack_started_at: Seq<UnackSlot>,
    pub t_setup_start: Option<TdmaTime>,
    pub t_disc_start: Option<TdmaTime>,
    pub t_reconnect_start: Option<TdmaTime>,
    pub t_rnr_start: Option<TdmaTime>,
    pub setup_retries: u8,
    pub disc_retries: u8,
    pub reconnect_retries: u8,
    pub pending_setup_pdu: Option<AlSetup>,
    pub pending_reconnect_pdu: Option<AlReconnect>,
    pub carrier_num: u16,
    pub needs_deferred_ack: bool,
    pub pending_sdus: Seq<Seq<u8>>,
    pub last_setup_echo: Option<AlSetup>,
    pub recently_delivered_ns: Seq<u8>,
}

/// The TL-SDUs of a window, each by what it holds.
pub open spec fn sdu_views(s: Seq<OutstandingSdu>) -> Seq<OutstandingView> {
    Seq::new(s.len(), |i: int| s[i]@)
}

/// The octet strings of a list, each by its octets.
pub open spec fn octet_views(s: Seq<Vec<u8>>) -> Seq<Seq<u8>> {
    Seq::new(s.len(), |i: int| s[i]@)
}

impl View for AlLink {
    type V = AlLinkView;

    open spec fn view(&self) -> AlLinkView {
        AlLinkView {
            key: self.key,
            main_address: self.main_address,
            phase: self.phase,
            service: self.service,
            max_tl_sdu_octets: self.max_tl_sdu_octets,
            tx_window: self.tx_window,
            effective_tx_sdu_window: self.effective_tx_sdu_window,
            max_sdu_retx: self.max_sdu_retx,
            max_segment_retx: self.max_segment_retx,
            next_n_s: self.next_n_s,
            outstanding: sdu_views(self.outstanding_sdus@),
            reassemblers: self.reassemblers@,
            unack_started_at: self.unack_started_at@,
            t_setup_start: self.t_setup_start,
            t_disc_start: self.t_disc_start,
            t_reconnect_start: self.t_reconnect_start,
            t_rnr_start: self.t_rnr_start,
            setup_retries: self.setup_retries,
            disc_retries: self.disc_retries,
            reconnect_retries: self.reconnect_retries,
            pending_setup_pdu: self.pending_setup_pdu,
            pending_reconnect_pdu: self.pending_reconnect_pdu,
            carrier_num: self.carrier_num,
            needs_deferred_ack: self.needs_deferred_ack,
            pending_sdus: octet_views(self.pending_sdus@),
            last_setup_echo: self.last_setup_echo,
            recently_delivered_ns: self.recently_delivered_ns@,
        }
    }
}

/// How many delivered N(S) a link remembers.
pub open spec fn ring_capacity(tx_window: u8) -> int {
    if tx_window >= 1 {
        tx_window as int
    } else {
        1
    }
}

impl AlLinkView {
    /// What holds of every link:
    /// - the window is not exceeded and its TL-SDUs are well formed,
    /// - each N(S) has at most one reassembly of either kind,
    /// - the ring of delivered N(S) holds no duplicate and stays in its bound,
    /// - the next N(S) lies in the range of the window.
    pub open spec fn wf(self) -> bool {
        &&& self.next_n_s <= self.tx_window
        &&& self.outstanding.len() <= self.effective_tx_sdu_window
        &&& forall|i: int| 0 <= i < self.outstanding.len() ==> (#[trigger] self.outstanding[i]).wf()
        &&& forall|i: int, j: int|
            0 <= i < j < self.reassemblers.len() ==> (#[trigger] self.reassemblers[i]).n_s != (
            #[trigger] self.reassemblers[j]).n_s
        &&& forall|i: int, j: int|
            0 <= i < j < self.unack_started_at.len() ==> (
            #[trigger] self.unack_started_at[i]).n_s != (#[trigger] self.unack_started_at[j]).n_s
        &&& self.recently_delivered_ns.no_duplicates()
        &&& self.recently_delivered_ns.len() <= ring_capacity(self.tx_window)
    }

    /// The link with all transfer state dropped; what was negotiated stays.
    pub open spec fn reset(self) -> AlLinkView {
        AlLinkView {
            next_n_s: 0,
            outstanding: Seq::empty(),
            reassemblers: Seq::empty(),
            unack_started_at: Seq::empty(),
            t_setup_start: None,
            t_disc_start: None,
            t_reconnect_start: None,
            t_rnr_start: None,
            setup_retries: 0,
            disc_retries: 0,
            reconnect_retries: 0,
            pending_setup_pdu: None,
            pending_reconnect_pdu: None,
            needs_deferred_ack: false,
            pending_sdus: Seq::empty(),
            last_setup_echo: None,
            recently_delivered_ns: Seq::empty(),
            ..self
        }
    }

    /// The link with its receive state dropped; the transmit side stays.
    pub open spec fn reset_rx(self) -> AlLinkView {
        AlLinkView {
            reassemblers: Seq::empty(),
            unack_started_at: Seq::empty(),
            recently_delivered_ns: Seq::empty(),
            ..self
        }
    }

    /// Where messages of this link go.
    pub open spec fn route(self) -> LinkRoute {
        LinkRoute {
            carrier_num: self.carrier_num,
            main_address: self.main_address,
            link_id: self.key.link_id,
            endpoint_id: self.key.endpoint_id,
        }
    }

    /// Data may be exchanged: the link is established, be it flow controlled or not.
    pub open spec fn is_open(self) -> bool {
        self.phase == AlPhase::Established || self.phase == AlPhase::FlowControlled
    }
}

/// Carrier and address for the messages of a link.
#[derive(Debug, Clone, Copy, PartialEq, Eq, Structural)]
pub struct LinkRoute {
    pub carrier_num: u16,
    pub main_address: TetraAddress,
    pub link_id: u32,
    pub endpoint_id: u32,
}

/// The message that hands an advanced-link PDU to the MAC.
pub open spec fn al_msg(route: LinkRoute, pdu: LlcPduView, reporter: Option<TxReporter>) -> SapMsgView {
    tma_req_msg(
        TmaReqView {
            carrier_num: route.carrier_num,
            pdu,
            main_address: route.main_address,
            link_id: route.link_id,
            endpoint_id: route.endpoint_id,
            params: TxParams::signalling_spec(),
            tx_reporter: reporter,
        },
    )
}

/// See [`al_msg`].
pub fn make_al_raw_sap_msg(route: LinkRoute, pdu: LlcPdu, reporter: Option<TxReporter>) -> (r:
    SapMsg)
    ensures
        r@ == al_msg(route, pdu@, reporter),
{
    make_tma_req(
        TmaUnitdataReq {
            carrier_num: route.carrier_num,
            pdu,
            main_address: route.main_address,
            link_id: route.link_id,
            endpoint_id: route.endpoint_id,
            params: TxParams::signalling(),
            tx_reporter: reporter,
        },
    )
}

/// `i` is the first TL-SDU of a window with the given N(S).
pub open spec fn is_first(s: Seq<OutstandingView>, n_s: u8, i: int) -> bool {
    &&& 0 <= i < s.len()
    &&& s[i].n_s == n_s
    &&& forall|j: int| 0 <= j < i ==> (#[trigger] s[j]).n_s != n_s
}

/// The first TL-SDU of a window with the given N(S), if there is one.
pub open spec fn first_of(s: Seq<OutstandingView>, n_s: u8) -> Option<int> {
    if exists|i: int| is_first(s, n_s, i) {
        Some(choose|i: int| is_first(s, n_s, i))
    } else {
        None
    }
}

/// The TL-SDUs of a window whose N(S) is not in `dropped`.
pub open spec fn without(s: Seq<OutstandingView>, dropped: Seq<u8>) -> Seq<OutstandingView> {
    s.filter(|x: OutstandingView| !dropped.contains(x.n_s))
}

/// Which segments are confirmed after a block that reports on segments.
pub open spec fn acked_after(acked: Seq<bool>, b: AckBlockView) -> Seq<bool> {
    match b.s_r {
        Some(SR::OldestNotReceived(sr)) => Seq::new(
            acked.len(),
            |k: int|
                acked[k] || k < sr || (k > sr && (b.ack_bitmap matches Some(bm) && k - sr - 1
                    < bm.len() && bm[k - sr - 1])),
        ),
        Some(SR::RestOfSduReceived) => Seq::new(acked.len(), |k: int| true),
        None => acked,
    }
}

/// The window after an acknowledgement block.
pub open spec fn window_after_block(s: Seq<OutstandingView>, b: AckBlockView) -> Seq<
    OutstandingView,
> {
    match b.ack_length {
        AckLength::EntireSduReceived => without(s, seq![b.n_r]),
        AckLength::SduFcsFailure => match first_of(s, b.n_r) {
            Some(i) => s.update(
                i,
                OutstandingView {
                    force_retx: true,
                    acked: Seq::new(s[i].acked.len(), |k: int| false),
                    ..s[i]
                },
            ),
            None => s,
        },
        AckLength::Segments(_) => match first_of(s, b.n_r) {
            Some(i) => {
                let sdu = OutstandingView { acked: acked_after(s[i].acked, b), ..s[i] };
                if sdu.has_unacked() {
                    s.update(i, sdu)
                } else {
                    without(s, seq![b.n_r])
                }
            },
            None => s,
        },
    }
}

/// The N(S) that an acknowledgement block confirms in full, if it does.
pub open spec fn block_delivers(s: Seq<OutstandingView>, b: AckBlockView) -> Option<u8> {
    match b.ack_length {
        AckLength::EntireSduReceived => if first_of(s, b.n_r) is Some {
            Some(b.n_r)
        } else {
            None
        },
        AckLength::SduFcsFailure => None,
        AckLength::Segments(_) => match first_of(s, b.n_r) {
            Some(i) => if (OutstandingView {
                acked: acked_after(s[i].acked, b),
                ..s[i]
            }).has_unacked() {
                None
            } else {
                Some(b.n_r)
            },
            None => None,
        },
    }
}

/// A first TL-SDU is the only first one.
pub proof fn lemma_first_of(s: Seq<OutstandingView>, n_s: u8, i: int)
    requires
        is_first(s, n_s, i),
    ensures
        first_of(s, n_s) == Some(i),
{
    let c = choose|j: int| is_first(s, n_s, j);
    assert(is_first(s, n_s, c));
    if c < i {
        assert(s[c].n_s != n_s);
    }
    if i < c {
        assert(s[i].n_s != n_s);
    }
}

/// The bit is found in the list.
pub fn octet_in(v: &Vec<u8>, x: u8) -> (r: bool)
    ensures
        r == v@.contains(x),
{
    let mut i: usize = 0;
    while i < v.len()
        invariant
            i <= v@.len(),
            forall|j: int| 0 <= j < i ==> v@[j] != x,
        decreases v@.len() - i,
    {
        if v[i] == x {
            assert(v@[i as int] == x);
            return true;
        }
        i = i + 1;
    }
    false
}

/// Index of the first TL-SDU with the given N(S).
fn find_first(v: &Vec<OutstandingSdu>, n_s: u8) -> (r: Option<usize>)
    ensures
        match r {
            Some(i) => is_first(sdu_views(v@), n_s, i as int) && first_of(sdu_views(v@), n_s)
                == Some(i as int),
            None => first_of(sdu_views(v@), n_s) is None,
        },
{
    let ghost s = sdu_views(v@);
    let mut i: usize = 0;
    while i < v.len()
        invariant
            i <= v@.len(),
            s == sdu_views(v@),
            forall|j: int| 0 <= j < i ==> (#[trigger] s[j]).n_s != n_s,
        decreases v@.len() - i,
    {
        assert(s[i as int] == v@[i as int]@);
        if v[i].n_s == n_s {
            proof {
                lemma_first_of(s, n_s, i as int);
            }
            return Some(i);
        }
        i = i + 1;
    }
    None
}

/// Drops the TL-SDUs whose N(S) is in `dropped`; the others keep their order.
pub fn retain_not_in(v: &mut Vec<OutstandingSdu>, dropped: &Vec<u8>)
    ensures
        sdu_views(final(v)@) == without(sdu_views(old(v)@), dropped@),
{
    let ghost s = sdu_views(v@);
    let ghost pred = |x: OutstandingView| !dropped@.contains(x.n_s);
    let ghost mut k: int = 0;
    let mut i: usize = 0;
    proof {
        reveal(Seq::filter);
        assert(s.take(0).filter(pred) + s.skip(0) =~= s);
    }
    while i < v.len()
        invariant
            0 <= k <= s.len(),
            pred == (|x: OutstandingView| !dropped@.contains(x.n_s)),
            sdu_views(v@) == s.take(k).filter(pred) + s.skip(k),
            i == s.take(k).filter(pred).len(),
            i <= v@.len(),
        decreases s.len() - k,
    {
        proof {
            reveal(Seq::filter);
            assert(s.take(k + 1).drop_last() =~= s.take(k));
            assert(sdu_views(v@)[i as int] == s[k]);
        }
        let ghost before = sdu_views(v@);
        if octet_in(dropped, v[i].n_s) {
            v.remove(i);
            assert(sdu_views(v@) =~= before.remove(i as int));
            assert(sdu_views(v@) =~= s.take(k + 1).filter(pred) + s.skip(k + 1));
        } else {
            assert(s.take(k + 1).filter(pred) =~= s.take(k).filter(pred).push(s[k]));
            assert(sdu_views(v@) =~= s.take(k + 1).filter(pred) + s.skip(k + 1));
            i = i + 1;
        }
        proof {
            k = k + 1;
        }
    }
    proof {
        assert(s.take(k) =~= s);
        assert(sdu_views(v@) =~= s.filter(pred));
    }
}

/// Marks the segments that a block confirms.
fn mark_acked(acked: &mut Vec<bool>, block: &AcknowledgementBlock)
    ensures
        final(acked)@ == acked_after(old(acked)@, block@),
{
    let n: usize = acked.len();
    let mut k: usize = 0;
    let ghost target = acked_after(acked@, block@);
    while k < n
        invariant
            k <= n,
            n == acked@.len(),
            acked@.len() == old(acked)@.len(),
            target == acked_after(old(acked)@, block@),
            target.len() == n,
            forall|j: int| 0 <= j < k ==> acked@[j] == target[j],
            forall|j: int| k <= j < n ==> acked@[j] == old(acked)@[j],
        decreases n - k,
    {
        let hit: bool = match block.s_r {
            Some(SR::OldestNotReceived(sr)) => {
                let sr: usize = sr as usize;
                if k < sr {
                    true
                } else if k > sr {
                    match &block.ack_bitmap {
                        Some(bm) => k - sr - 1 < bm.len() && bm[k - sr - 1],
                        None => false,
                    }
                } else {
                    false
                }
            },
            Some(SR::RestOfSduReceived) => true,
            None => false,
        };
        if hit {
            acked.set(k, true);
        }
        k = k + 1;
    }
    assert(acked@ =~= target);
}

/// Every flag of the list is set.
fn all_set(v: &Vec<bool>) -> (r: bool)
    ensures
        r == !(exists|i: int| 0 <= i < v@.len() && !#[trigger] v@[i]),
{
    let mut i: usize = 0;
    while i < v.len()
        invariant
            i <= v@.len(),
            forall|j: int| 0 <= j < i ==> #[trigger] v@[j],
        decreases v@.len() - i,
    {
        if !v[i] {
            assert(!v@[i as int]);
            return false;
        }
        i = i + 1;
    }
    true
}

/// `n` cleared flags.
pub fn cleared_flags(n: usize) -> (r: Vec<bool>)
    ensures
        r@ == Seq::new(n as nat, |k: int| false),
{
    let mut r: Vec<bool> = Vec::new();
    let mut i: usize = 0;
    while i < n
        invariant
            i <= n,
            r@ =~= Seq::new(i as nat, |k: int| false),
        decreases n - i,
    {
        r.push(false);
        i = i + 1;
    }
    r
}

/// A window keeps its shape without some of its TL-SDUs.
pub proof fn lemma_without_wf(s: Seq<OutstandingView>, dropped: Seq<u8>)
    requires
        forall|i: int| 0 <= i < s.len() ==> (#[trigger] s[i]).wf(),
    ensures
        without(s, dropped).len() <= s.len(),
        forall|i: int| 0 <= i < without(s, dropped).len() ==> (#[trigger] without(s, dropped)[i]).wf(),
        forall|i: int| 0 <= i < without(s, dropped).len() ==> s.contains(
            #[trigger] without(s, dropped)[i],
        ) && !dropped.contains(without(s, dropped)[i].n_s),
    decreases s.len(),
{
    reveal(Seq::filter);
    if s.len() > 0 {
        let head = s.drop_last();
        lemma_without_wf(head, dropped);
        let f = without(s, dropped);
        assert forall|i: int| 0 <= i < f.len() implies (#[trigger] f[i]).wf() && s.contains(f[i])
            && !dropped.contains(f[i].n_s) by {
            if i < without(head, dropped).len() {
                assert(f[i] == without(head, dropped)[i]);
                let k = choose|k: int| 0 <= k < head.len() && head[k] == f[i];
                assert(s[k] == f[i]);
            } else {
                assert(f[i] == s.last());
                assert(s[s.len() - 1] == f[i]);
            }
        }
    }
}

impl AlLink {
    /// Where messages of this link go.
    pub fn route(&self) -> (r: LinkRoute)
        ensures
            r == self@.route(),
    {
        LinkRoute {
            carrier_num: self.carrier_num,
            main_address: self.main_address,
            link_id: self.key.link_id,
            endpoint_id: self.key.endpoint_id,
        }
    }

    /// Drops all transfer state and keeps what was negotiated. The peer starts
    /// afresh after an AL-SETUP or AL-RECONNECT; what survived of the old session
    /// would collide with its first segments.
    pub fn reset_transfer_state(&mut self)
        ensures
            final(self)@ == old(self)@.reset(),
            final(self)@.wf(),
    {
        self.outstanding_sdus = Vec::new();
        self.pending_sdus = Vec::new();
        self.next_n_s = 0;
        self.needs_deferred_ack = false;
        self.t_setup_start = None;
        self.t_reconnect_start = None;
        self.t_disc_start = None;
        self.t_rnr_start = None;
        self.setup_retries = 0;
        self.reconnect_retries = 0;
        self.disc_retries = 0;
        self.pending_setup_pdu = None;
        self.pending_reconnect_pdu = None;
        self.last_setup_echo = None;
        self.reset_rx_state();
        assert(self@ =~= old(self)@.reset());
    }

    /// Drops what was received in part and the ring of delivered N(S).
    pub fn reset_rx_state(&mut self)
        ensures
            final(self)@ == old(self)@.reset_rx(),
    {
        self.reassemblers = Vec::new();
        self.unack_started_at = Vec::new();
        self.recently_delivered_ns = Vec::new();
        assert(self@ =~= old(self)@.reset_rx());
    }

    /// Applies one acknowledgement block to the window. Returns the N(S) that it
    /// confirms in full.
    pub fn process_ack_block(&mut self, block: &AcknowledgementBlock) -> (r: Option<u8>)
        requires
            old(self)@.wf(),
        ensures
            final(self)@ == (AlLinkView {
                outstanding: window_after_block(old(self)@.outstanding, block@),
                ..old(self)@
            }),
            final(self)@.wf(),
            r == block_delivers(old(self)@.outstanding, block@),
    {
        let n_r: u8 = block.n_r;
        let ghost s = self@.outstanding;
        let found: Option<usize> = find_first(&self.outstanding_sdus, n_r);
        proof {
            lemma_without_wf(s, seq![n_r]);
        }
        match block.ack_length {
            AckLength::EntireSduReceived => {
                let dropped: Vec<u8> = vec![n_r];
                assert(dropped@ =~= seq![n_r]);
                retain_not_in(&mut self.outstanding_sdus, &dropped);
                assert(self@ =~= (AlLinkView { outstanding: without(s, seq![n_r]), ..old(self)@ }));
                if found.is_some() {
                    Some(n_r)
                } else {
                    None
                }
            },
            AckLength::SduFcsFailure => {
                if let Some(i) = found {
                    let n: usize = self.outstanding_sdus[i].acked_segments.len();
                    self.outstanding_sdus[i].force_retx = true;
                    self.outstanding_sdus[i].acked_segments = cleared_flags(n);
                    assert(self@.outstanding =~= window_after_block(s, block@));
                }
                assert(self@ =~= (AlLinkView {
                    outstanding: window_after_block(s, block@),
                    ..old(self)@
                }));
                None
            },
            AckLength::Segments(_) => {
                let i: usize = match found {
                    Some(i) => i,
                    None => {
                        return None;
                    },
                };
                mark_acked(&mut self.outstanding_sdus[i].acked_segments, block);
                let ghost sdu = OutstandingView { acked: acked_after(s[i as int].acked, block@), ..s[i as int] };
                assert(sdu_views(self.outstanding_sdus@) =~= s.update(i as int, sdu));
                assert(self.outstanding_sdus@[i as int].acked_segments@ == sdu.acked);
                if all_set(&self.outstanding_sdus[i].acked_segments) {
                    assert(!sdu.has_unacked());
                    let dropped: Vec<u8> = vec![n_r];
                    assert(dropped@ =~= seq![n_r]);
                    retain_not_in(&mut self.outstanding_sdus, &dropped);
                    proof {
                        lemma_without_update(s, i as int, sdu, n_r);
                    }
                    assert(self@ =~= (AlLinkView {
                        outstanding: without(s, seq![n_r]),
                        ..old(self)@
                    }));
                    Some(n_r)
                } else {
                    assert(self@ =~= (AlLinkView {
                        outstanding: s.update(i as int, sdu),
                        ..old(self)@
                    }));
                    None
                }
            },
        }
    }
}

/// Changing a TL-SDU that is dropped anyway changes nothing.
proof fn lemma_without_update(s: Seq<OutstandingView>, i: int, x: OutstandingView, n_s: u8)
    requires
        0 <= i < s.len(),
        s[i].n_s == n_s,
        x.n_s == n_s,
    ensures
        without(s.update(i, x), seq![n_s]) == without(s, seq![n_s]),
    decreases s.len(),
{
    reveal(Seq::filter);
    let u = s.update(i, x);
    assert(seq![n_s].contains(n_s)) by {
        assert(seq![n_s][0] == n_s);
    }
    if i < s.len() - 1 {
        assert(u.drop_last() =~= s.drop_last().update(i, x));
        lemma_without_update(s.drop_last(), i, x, n_s);
    } else {
        assert(u.drop_last() =~= s.drop_last());
    }
}

} // verus!
