//! PDP contexts of the base station.

use crate::ipv4::Ipv4Addr;
use crate::saps::{
    ChanAllocType, CmceChanAllocReq, Layer2Service, LtpdIndView, LtpdMleUnitdataInd, LtpdMleUnitdataReq, LtpdReqView, MessageQueue,
    Sap, SapInnerView, SapMsg, SapMsgInner, SapMsgView, TetraAddress, TetraEntity, TimeslotSet,
    UlDlAssignment,
};
use crate::sec_packet_data::{mtu_code, mtu_to_code, CfgPacketData, CfgStaticLease};
use crate::sndcp::pdus::{
    ActivatePdpContextAccept, ActivatePdpContextDemand, ChapPacket, DemandView, Pco, PcoEntryView,
    ProtocolIdentity, RejectCause, SnDownlink, SnDownlinkView, SnUplink, SnUplinkView, Tia,
    TransmitResponseRejectCause,
};
use crate::sndcp::pool::{
    given_back, is_grantable, is_leased, leased, pool_universe, Ipv4Pool,
};
use crate::tdma::{time_at, TdmaTime};
use std::collections::HashMap;
use vstd::prelude::*;

verus! {

/// Timeslots without traffic before a context goes to standby, about one minute.
pub const READY_TIMER_SLOTS: i32 = 4237;

/// Timeslots in standby before a context is released, about ten minutes.
pub const STANDBY_TIMER_SLOTS: i32 = 42353;

/// Timeslots that an answer of the terminal may take, about ten seconds.
pub const RESP_WAIT_TIMER_SLOTS: i32 = 706;

/// Identifies a PDP context: two terminals may use the same NSAPI.
#[derive(Debug, Clone, Copy, PartialEq, Eq, Hash, Structural)]
pub struct PdpKey {
    pub ssi: u32,
    pub nsapi: u8,
}

impl PdpKey {
    /// The context `nsapi` of a terminal.
    pub fn new(addr: TetraAddress, nsapi: u8) -> (r: PdpKey)
        ensures
            r == (PdpKey { ssi: addr.ssi, nsapi }),
    {
        PdpKey { ssi: addr.ssi, nsapi }
    }
}

/// State of a PDP context.
#[derive(Debug, Clone, Copy, PartialEq, Eq, Structural)]
pub enum PdpState {
    /// Accepted, not confirmed.
    WaitForAccept,
    /// Data flows in both directions.
    Ready,
    /// A request to transmit was accepted; the terminal sets up its link.
    WaitingForAlSetup,
    /// The terminal must be paged before it gets data.
    Standby,
    /// The terminal is being paged.
    WaitForPageResponse,
    /// The context is being released.
    Deactivating,
}

/// An advanced link that a terminal has used.
#[derive(Debug, Clone, Copy, PartialEq, Eq, Structural)]
pub struct AlRoute {
    pub link_id: u32,
    pub endpoint_id: u32,
    pub al_link_number: u8,
}

/// Where an uplink PDU came from.
#[derive(Debug, Clone, Copy, PartialEq, Eq, Structural)]
pub struct UplinkOrigin {
    pub address: TetraAddress,
    pub link_id: u32,
    pub endpoint_id: u32,
    pub al_link_number: Option<u8>,
}

/// The link that a downlink PDU goes over.
#[derive(Debug, Clone, Copy, PartialEq, Eq, Structural)]
pub struct DownlinkRoute {
    pub link_id: u32,
    pub endpoint_id: u32,
    pub al_link_number: Option<u8>,
}

/// A PDP context.
#[derive(Debug)]
pub struct PdpContext {
    pub key: PdpKey,
    pub state: PdpState,
    pub ipv4: Ipv4Addr,
    pub tia: Tia,
    /// The accept that was sent, to be sent again when the demand is repeated.
    pub last_accept: ActivatePdpContextAccept,
    pub last_activity: TdmaTime,
    pub ready_deadline: Option<TdmaTime>,
    pub standby_deadline: Option<TdmaTime>,
    pub resp_wait_deadline: Option<TdmaTime>,
    /// Packets that wait for the terminal to answer its page.
    pub pending_downlink: Vec<Vec<u8>>,
    /// The basic link that the context was activated over.
    pub link_id: u32,
    pub endpoint_id: u32,
    /// The advanced link that the terminal last sent data over.
    pub al_link: Option<AlRoute>,
}

/// What a [`PdpContext`] holds.
#[verifier::ext_equal]
pub struct CtxView {
    pub key: PdpKey,
    pub state: PdpState,
    pub ipv4: Ipv4Addr,
    pub tia: Tia,
    pub last_accept: ActivatePdpContextAccept,
    pub last_activity: TdmaTime,
    pub ready_deadline: Option<TdmaTime>,
    pub standby_deadline: Option<TdmaTime>,
    pub resp_wait_deadline: Option<TdmaTime>,
    pub pending: Seq<Seq<u8>>,
    pub link_id: u32,
    pub endpoint_id: u32,
    pub al_link: Option<AlRoute>,
}

/// The packets of a list, each by its octets.
pub open spec fn packet_views(s: Seq<Vec<u8>>) -> Seq<Seq<u8>> {
    Seq::new(s.len(), |i: int| s[i]@)
}

impl View for PdpContext {
    type V = CtxView;

    open spec fn view(&self) -> CtxView {
        CtxView {
            key: self.key,
            state: self.state,
            ipv4: self.ipv4,
            tia: self.tia,
            last_accept: self.last_accept,
            last_activity: self.last_activity,
            ready_deadline: self.ready_deadline,
            standby_deadline: self.standby_deadline,
            resp_wait_deadline: self.resp_wait_deadline,
            pending: packet_views(self.pending_downlink@),
            link_id: self.link_id,
            endpoint_id: self.endpoint_id,
            al_link: self.al_link,
        }
    }
}

/// The contexts of a list, each by what it holds.
pub open spec fn ctx_views(s: Seq<PdpContext>) -> Seq<CtxView> {
    Seq::new(s.len(), |i: int| s[i]@)
}

/// A packet from a terminal, for the gateway.
#[derive(Debug)]
pub struct GatewayUplink {
    pub main_address: TetraAddress,
    pub nsapi: u8,
    pub payload: Vec<u8>,
}

/// What a [`GatewayUplink`] holds.
#[verifier::ext_equal]
pub struct UplinkView {
    pub main_address: TetraAddress,
    pub nsapi: u8,
    pub payload: Seq<u8>,
}

impl View for GatewayUplink {
    type V = UplinkView;

    open spec fn view(&self) -> UplinkView {
        UplinkView {
            main_address: self.main_address,
            nsapi: self.nsapi,
            payload: self.payload@,
        }
    }
}

/// The packets of a list, each by what it holds.
pub open spec fn uplink_views(s: Seq<GatewayUplink>) -> Seq<UplinkView> {
    Seq::new(s.len(), |i: int| s[i]@)
}

/// A packet for a terminal, from the gateway.
#[derive(Debug)]
pub struct GatewayDownlink {
    pub dest_ipv4: Ipv4Addr,
    pub payload: Vec<u8>,
}

/// SNDCP entity of the base station.
pub struct Sndcp {
    pub config: CfgPacketData,
    pub ipv4_pool: Ipv4Pool,
    pub contexts: Vec<PdpContext>,
    /// The context of each address that is in use.
    pub ipv4_to_key: HashMap<u32, PdpKey>,
    /// Packets from the terminals, oldest first.
    pub uplink_ip_queue: Vec<GatewayUplink>,
    pub dltime: TdmaTime,
}

/// What an [`Sndcp`] holds.
#[verifier::ext_equal]
pub struct SndcpView {
    pub config: CfgPacketData,
    pub pool: Set<u32>,
    pub contexts: Seq<CtxView>,
    pub by_ip: Map<u32, PdpKey>,
    pub uplink: Seq<UplinkView>,
    pub dltime: TdmaTime,
}

impl View for Sndcp {
    type V = SndcpView;

    open spec fn view(&self) -> SndcpView {
        SndcpView {
            config: self.config,
            pool: self.ipv4_pool@,
            contexts: ctx_views(self.contexts@),
            by_ip: self.ipv4_to_key@,
            uplink: uplink_views(self.uplink_ip_queue@),
            dltime: self.dltime,
        }
    }
}

/// Context `i` has the given key.
pub open spec fn has_ctx(s: Seq<CtxView>, key: PdpKey, i: int) -> bool {
    0 <= i < s.len() && s[i].key == key
}

/// The place of the context with the given key, if there is one.
pub open spec fn ctx_pos(s: Seq<CtxView>, key: PdpKey) -> Option<int> {
    if exists|i: int| has_ctx(s, key, i) {
        Some(choose|i: int| has_ctx(s, key, i))
    } else {
        None
    }
}

/// The context with the given key, if there is one.
pub open spec fn find_ctx(s: Seq<CtxView>, key: PdpKey) -> Option<CtxView> {
    match ctx_pos(s, key) {
        Some(i) => Some(s[i]),
        None => None,
    }
}

/// A context has this address.
pub open spec fn in_use(s: Seq<CtxView>, a: u32) -> bool {
    exists|i: int| 0 <= i < s.len() && (#[trigger] s[i]).ipv4.bits == a
}

/// No two contexts share a key or an address.
pub open spec fn ctxs_distinct(s: Seq<CtxView>) -> bool {
    forall|i: int, j: int|
        0 <= i < j < s.len() ==> (#[trigger] s[i]).key != (#[trigger] s[j]).key && s[i].ipv4.bits
            != s[j].ipv4.bits
}

impl SndcpView {
    /// What holds of the entity between two calls:
    /// - no two contexts share a key or an address,
    /// - every address in use is one that the pool may hand out, or a lease,
    /// - an address of the pool is free exactly while no context has it,
    /// - the index leads from each address in use to its context.
    #[verifier::opaque]
    pub open spec fn wf(self) -> bool {
        &&& ctxs_distinct(self.contexts)
        &&& forall|i: int|
            0 <= i < self.contexts.len() ==> is_grantable(
                self.config,
                (#[trigger] self.contexts[i]).ipv4.bits,
            )
        &&& forall|a: u32| #[trigger]
            self.pool.contains(a) <==> pool_universe(self.config).contains(a) && !in_use(
                self.contexts,
                a,
            )
        &&& forall|a: u32| #[trigger] self.by_ip.contains_key(a) <==> in_use(self.contexts, a)
        &&& forall|i: int|
            0 <= i < self.contexts.len() ==> self.by_ip[(
            #[trigger] self.contexts[i]).ipv4.bits] == self.contexts[i].key
    }

    /// The entity with context `i` changed.
    pub open spec fn with_ctx(self, i: int, c: CtxView) -> SndcpView {
        SndcpView { contexts: self.contexts.update(i, c), ..self }
    }

    /// The entity after context `i` has been released: its address is free again, in the
    /// pool unless it is a lease.
    pub open spec fn release(self, i: int) -> SndcpView {
        let a = self.contexts[i].ipv4.bits;
        SndcpView {
            contexts: self.contexts.remove(i),
            pool: given_back(self.config, self.pool, a),
            by_ip: self.by_ip.remove(a),
            ..self
        }
    }

    /// The entity after a context has been added: its address is in use.
    pub open spec fn take_on(self, c: CtxView) -> SndcpView {
        SndcpView {
            contexts: self.contexts.push(c),
            pool: self.pool.remove(c.ipv4.bits),
            by_ip: self.by_ip.insert(c.ipv4.bits, c.key),
            ..self
        }
    }
}

/// With distinct contexts, the place of a context is the only one with its key.
pub proof fn lemma_ctx_pos(s: Seq<CtxView>, key: PdpKey, i: int)
    requires
        ctxs_distinct(s),
        has_ctx(s, key, i),
    ensures
        ctx_pos(s, key) == Some(i),
        find_ctx(s, key) == Some(s[i]),
{
    let c = choose|j: int| has_ctx(s, key, j);
    assert(has_ctx(s, key, c));
    if c < i {
        assert(s[c].key != s[i].key);
    }
    if i < c {
        assert(s[i].key != s[c].key);
    }
}

/// Changing a context other than in key and address keeps the entity well formed.
pub proof fn lemma_with_ctx_wf(st: SndcpView, i: int, c: CtxView)
    requires
        st.wf(),
        0 <= i < st.contexts.len(),
        c.key == st.contexts[i].key,
        c.ipv4 == st.contexts[i].ipv4,
    ensures
        st.with_ctx(i, c).wf(),
{
    reveal(SndcpView::wf);
    let s = st.contexts;
    let t = s.update(i, c);
    assert forall|a: u32| in_use(t, a) == in_use(s, a) by {
        if in_use(s, a) {
            let k = choose|k: int| 0 <= k < s.len() && (#[trigger] s[k]).ipv4.bits == a;
            assert(t[k].ipv4.bits == a);
        }
        if in_use(t, a) {
            let k = choose|k: int| 0 <= k < t.len() && (#[trigger] t[k]).ipv4.bits == a;
            assert(s[k].ipv4.bits == a);
        }
    }
    assert forall|a: int, b: int| 0 <= a < b < t.len() implies (#[trigger] t[a]).key != (
    #[trigger] t[b]).key && t[a].ipv4.bits != t[b].ipv4.bits by {
        assert(s[a].key != s[b].key && s[a].ipv4.bits != s[b].ipv4.bits);
    }
    assert forall|k: int| 0 <= k < t.len() implies is_grantable(
        st.config,
        (#[trigger] t[k]).ipv4.bits,
    ) && st.by_ip[t[k].ipv4.bits] == t[k].key by {
        assert(s[k].ipv4 == t[k].ipv4 && s[k].key == t[k].key);
    }
}

/// Releasing a context keeps the entity well formed.
pub proof fn lemma_release_wf(st: SndcpView, i: int)
    requires
        st.wf(),
        0 <= i < st.contexts.len(),
    ensures
        st.release(i).wf(),
{
    reveal(SndcpView::wf);
    let s = st.contexts;
    let t = s.remove(i);
    let ip = s[i].ipv4.bits;
    assert forall|a: u32| in_use(t, a) == (in_use(s, a) && a != ip) by {
        if in_use(s, a) && a != ip {
            let k = choose|k: int| 0 <= k < s.len() && (#[trigger] s[k]).ipv4.bits == a;
            if k < i {
                assert(t[k].ipv4.bits == a);
            } else {
                assert(t[k - 1].ipv4.bits == a);
            }
        }
        if in_use(t, a) {
            let k = choose|k: int| 0 <= k < t.len() && (#[trigger] t[k]).ipv4.bits == a;
            let k0 = if k < i {
                k
            } else {
                k + 1
            };
            assert(s[k0].ipv4.bits == a);
            if k0 < i {
                assert(s[k0].ipv4.bits != s[i].ipv4.bits);
            } else {
                assert(s[i].ipv4.bits != s[k0].ipv4.bits);
            }
        }
    }
    assert(in_use(s, ip));
    assert forall|a: int, b: int| 0 <= a < b < t.len() implies (#[trigger] t[a]).key != (
    #[trigger] t[b]).key && t[a].ipv4.bits != t[b].ipv4.bits by {
        let a0 = if a < i {
            a
        } else {
            a + 1
        };
        let b0 = if b < i {
            b
        } else {
            b + 1
        };
        assert(s[a0].key != s[b0].key && s[a0].ipv4.bits != s[b0].ipv4.bits);
    }
    assert forall|k: int| 0 <= k < t.len() implies is_grantable(
        st.config,
        (#[trigger] t[k]).ipv4.bits,
    ) && st.release(i).by_ip[t[k].ipv4.bits] == t[k].key by {
        let k0 = if k < i {
            k
        } else {
            k + 1
        };
        assert(s[k0] == t[k]);
        if k0 < i {
            assert(s[k0].ipv4.bits != s[i].ipv4.bits);
        } else {
            assert(s[i].ipv4.bits != s[k0].ipv4.bits);
        }
    }
}

/// Adding a context under a new key with a free address keeps the entity well formed.
pub proof fn lemma_take_on_wf(st: SndcpView, c: CtxView)
    requires
        st.wf(),
        ctx_pos(st.contexts, c.key) is None,
        is_grantable(st.config, c.ipv4.bits),
        !in_use(st.contexts, c.ipv4.bits),
    ensures
        st.take_on(c).wf(),
{
    reveal(SndcpView::wf);
    let s = st.contexts;
    let t = s.push(c);
    let n = s.len() as int;
    assert forall|a: u32| in_use(t, a) == (in_use(s, a) || a == c.ipv4.bits) by {
        if in_use(s, a) {
            let k = choose|k: int| 0 <= k < s.len() && (#[trigger] s[k]).ipv4.bits == a;
            assert(t[k].ipv4.bits == a);
        }
        if a == c.ipv4.bits {
            assert(t[n].ipv4.bits == a);
        }
        if in_use(t, a) {
            let k = choose|k: int| 0 <= k < t.len() && (#[trigger] t[k]).ipv4.bits == a;
            if k < n {
                assert(s[k].ipv4.bits == a);
            }
        }
    }
    assert(!in_use(s, c.ipv4.bits));
    assert forall|a: int, b: int| 0 <= a < b < t.len() implies (#[trigger] t[a]).key != (
    #[trigger] t[b]).key && t[a].ipv4.bits != t[b].ipv4.bits by {
        if b < n {
            assert(s[a].key != s[b].key && s[a].ipv4.bits != s[b].ipv4.bits);
        } else {
            assert(!has_ctx(s, c.key, a));
            assert(s[a].ipv4.bits != c.ipv4.bits);
        }
    }
    assert forall|k: int| 0 <= k < t.len() implies is_grantable(
        st.config,
        (#[trigger] t[k]).ipv4.bits,
    ) && st.take_on(c).by_ip[t[k].ipv4.bits] == t[k].key by {
        if k < n {
            assert(s[k] == t[k]);
            assert(s[k].ipv4.bits != c.ipv4.bits);
        }
    }
}

/// The time `n` timeslots after `now`.
pub open spec fn later(now: TdmaTime, n: i32) -> TdmaTime {
    time_at(now.slot_index() + n)
}

/// The message that hands a downlink SN-PDU to the layer below.
pub open spec fn downlink_msg(
    main_address: TetraAddress,
    route: DownlinkRoute,
    pdu: SnDownlinkView,
    layer2service: Layer2Service,
    packet_data_flag: bool,
    chan_alloc: Option<CmceChanAllocReq>,
) -> SapMsgView {
    SapMsgView {
        sap: Sap::TlpdSap,
        src: TetraEntity::Sndcp,
        dest: TetraEntity::Mle,
        msg: SapInnerView::LtpdMleUnitdataReq(
            LtpdReqView {
                main_address,
                link_id: route.link_id,
                endpoint_id: route.endpoint_id,
                al_link_number: route.al_link_number,
                pdu,
                layer2service,
                packet_data_flag,
                chan_alloc,
            },
        ),
    }
}

/// A signalling reply to an uplink PDU.
pub open spec fn reply_msg(ind: LtpdIndView, pdu: SnDownlinkView) -> SapMsgView {
    granting_reply_msg(ind, pdu, None)
}

/// A signalling reply that may grant a channel. It goes over the basic link.
pub open spec fn granting_reply_msg(
    ind: LtpdIndView,
    pdu: SnDownlinkView,
    chan_alloc: Option<CmceChanAllocReq>,
) -> SapMsgView {
    downlink_msg(
        ind.received_tetra_address,
        DownlinkRoute { link_id: ind.link_id, endpoint_id: ind.endpoint_id, al_link_number: None },
        pdu,
        Layer2Service::Acknowledged,
        false,
        chan_alloc,
    )
}

/// The channel that is granted with an accepted request to transmit: timeslot 4 of the main
/// carrier in both directions, beside the control channel.
pub open spec fn pdch_grant() -> CmceChanAllocReq {
    CmceChanAllocReq {
        usage: None,
        timeslots: TimeslotSet::only_spec(4),
        alloc_type: ChanAllocType::Additional,
        ul_dl_assigned: UlDlAssignment::Both,
        carrier: None,
    }
}

/// The basic link of a context.
pub open spec fn basic_route(c: CtxView) -> DownlinkRoute {
    DownlinkRoute { link_id: c.link_id, endpoint_id: c.endpoint_id, al_link_number: None }
}

/// The link for SN-DATA: the advanced link that the terminal last sent data over, or the
/// basic link as long as there was none.
pub open spec fn data_route(c: CtxView) -> DownlinkRoute {
    match c.al_link {
        Some(a) => DownlinkRoute {
            link_id: a.link_id,
            endpoint_id: a.endpoint_id,
            al_link_number: Some(a.al_link_number),
        },
        None => basic_route(c),
    }
}

/// Where an uplink PDU came from.
pub open spec fn origin(ind: LtpdIndView) -> UplinkOrigin {
    UplinkOrigin {
        address: ind.received_tetra_address,
        link_id: ind.link_id,
        endpoint_id: ind.endpoint_id,
        al_link_number: ind.al_link_number,
    }
}

/// Hands a downlink SN-PDU to the layer below.
pub fn send_downlink(
    queue: &mut MessageQueue,
    main_address: TetraAddress,
    route: DownlinkRoute,
    pdu: SnDownlink,
    layer2service: Layer2Service,
    packet_data_flag: bool,
    chan_alloc: Option<CmceChanAllocReq>,
)
    ensures
        final(queue)@ == old(queue)@.push(
            downlink_msg(
                main_address,
                route,
                pdu@,
                layer2service,
                packet_data_flag,
                chan_alloc,
            ),
        ),
{
    queue.push_back(
        SapMsg {
            sap: Sap::TlpdSap,
            src: TetraEntity::Sndcp,
            dest: TetraEntity::Mle,
            msg: SapMsgInner::LtpdMleUnitdataReq(
                LtpdMleUnitdataReq {
                    main_address,
                    link_id: route.link_id,
                    endpoint_id: route.endpoint_id,
                    al_link_number: route.al_link_number,
                    pdu,
                    layer2service,
                    packet_data_flag,
                    chan_alloc,
                },
            ),
        },
    );
}

/// Replies to an uplink PDU with signalling.
fn send_reply(queue: &mut MessageQueue, ind: &LtpdMleUnitdataInd, pdu: SnDownlink)
    ensures
        final(queue)@ == old(queue)@.push(reply_msg(ind@, pdu@)),
{
    send_granting_reply(queue, ind, pdu, None);
}

/// Replies to an uplink PDU with signalling that may grant a channel.
fn send_granting_reply(
    queue: &mut MessageQueue,
    ind: &LtpdMleUnitdataInd,
    pdu: SnDownlink,
    chan_alloc: Option<CmceChanAllocReq>,
)
    ensures
        final(queue)@ == old(queue)@.push(granting_reply_msg(ind@, pdu@, chan_alloc)),
{
    send_downlink(
        queue,
        ind.received_tetra_address,
        DownlinkRoute { link_id: ind.link_id, endpoint_id: ind.endpoint_id, al_link_number: None },
        pdu,
        Layer2Service::Acknowledged,
        false,
        chan_alloc,
    );
}

/// The timer has fired: `now` is past the deadline.
pub open spec fn timer_fired(deadline: TdmaTime, now: TdmaTime) -> bool {
    now.slot_index() > deadline.slot_index()
}

/// See [`timer_fired`].
pub fn timer_expired(deadline: TdmaTime, now: TdmaTime) -> (r: bool)
    ensures
        r == timer_fired(deadline, now),
{
    now.diff(deadline) > 0
}

// ---- CHAP -----------------------------------------------------------------------------

/// The entry is a CHAP packet with the given code.
pub open spec fn is_chap(e: PcoEntryView, code: u8) -> bool {
    e.protocol_identity == ProtocolIdentity::Chap && e.contents.len() >= 2 && e.contents[0] == code
}

/// `i` is the first CHAP packet with the given code.
pub open spec fn is_first_chap(pco: Seq<PcoEntryView>, code: u8, i: int) -> bool {
    &&& 0 <= i < pco.len()
    &&& is_chap(pco[i], code)
    &&& forall|j: int| 0 <= j < i ==> !is_chap(#[trigger] pco[j], code)
}

/// The identifier of the first CHAP packet with the given code, if there is one.
pub open spec fn chap_id_of(pco: Seq<PcoEntryView>, code: u8) -> Option<u8> {
    if exists|i: int| is_first_chap(pco, code, i) {
        Some(pco[choose|i: int| is_first_chap(pco, code, i)].contents[1])
    } else {
        None
    }
}

/// The CHAP identifier to answer with: that of the first response (code 2), or else that
/// of the first challenge (code 1).
pub open spec fn chap_id(pco: Option<Seq<PcoEntryView>>) -> Option<u8> {
    match pco {
        None => None,
        Some(p) => match chap_id_of(p, 2) {
            Some(id) => Some(id),
            None => chap_id_of(p, 1),
        },
    }
}

proof fn lemma_first_chap(pco: Seq<PcoEntryView>, code: u8, i: int)
    requires
        is_first_chap(pco, code, i),
    ensures
        chap_id_of(pco, code) == Some(pco[i].contents[1]),
{
    let c = choose|j: int| is_first_chap(pco, code, j);
    assert(is_first_chap(pco, code, c));
    if c < i {
        assert(!is_chap(pco[c], code));
    }
    if i < c {
        assert(!is_chap(pco[i], code));
    }
}

/// See [`chap_id`].
pub fn chap_id_from_pco(pco: &Option<Pco>) -> (r: Option<u8>)
    ensures
        r == chap_id(
            match *pco {
                Some(p) => Some(p@),
                None => None,
            },
        ),
{
    let p: &Pco = match pco {
        Some(p) => p,
        None => {
            return None;
        },
    };
    let ghost s = p@;
    let mut challenge: Option<u8> = None;
    let mut i: usize = 0;
    while i < p.entries.len()
        invariant
            i <= p.entries@.len(),
            s == p@,
            forall|j: int| 0 <= j < i ==> !is_chap(#[trigger] s[j], 2),
            match challenge {
                Some(id) => chap_id_of(s, 1) == Some(id),
                None => forall|j: int| 0 <= j < i ==> !is_chap(#[trigger] s[j], 1),
            },
            *pco matches Some(q) && q@ == s,
        decreases p.entries@.len() - i,
    {
        assert(s[i as int] == p.entries@[i as int]@);
        if p.entries[i].protocol_identity == ProtocolIdentity::Chap && p.entries[i].contents.len()
            >= 2 {
            let code: u8 = p.entries[i].contents[0];
            let id: u8 = p.entries[i].contents[1];
            if code == 2 {
                proof {
                    assert(is_first_chap(s, 2, i as int));
                    lemma_first_chap(s, 2, i as int);
                }
                return Some(id);
            }
            if code == 1 && challenge.is_none() {
                proof {
                    assert(is_first_chap(s, 1, i as int));
                    lemma_first_chap(s, 1, i as int);
                }
                challenge = Some(id);
            }
        }
        i = i + 1;
    }
    challenge
}

// ---- activation ---------------------------------------------------------------------------

/// What an activation demand leads to.
pub enum Activation {
    /// The accept is sent once more.
    Resend,
    /// The demand is refused.
    Refuse(RejectCause),
    /// A context is made with this address.
    Accept(Ipv4Addr, Tia),
}

/// The lowest address of a set.
pub open spec fn lowest(pool: Set<u32>) -> u32 {
    choose|a: u32| pool.contains(a) && forall|b: u32| #[trigger] pool.contains(b) ==> a <= b
}

/// The address that a demand for a static one asks for.
pub open spec fn requested_address(config: CfgPacketData, d: DemandView) -> Ipv4Addr {
    match d.ip_address {
        Some(ip) => ip,
        None => config.ipv4_pool_base,
    }
}

/// Lease `i` belongs to this terminal, and no context has its address.
pub open spec fn lease_usable(st: SndcpView, ssi: u32, i: int) -> bool {
    &&& 0 <= i < st.config.static_lease@.len()
    &&& st.config.static_lease@[i].issi == ssi
    &&& !st.by_ip.contains_key(st.config.static_lease@[i].ipv4.bits)
}

/// Lease `i` is the first that the terminal can use.
pub open spec fn lease_first(st: SndcpView, ssi: u32, i: int) -> bool {
    lease_usable(st, ssi, i) && forall|j: int| 0 <= j < i ==> !lease_usable(st, ssi, j)
}

/// The address that is kept for a terminal, if it has one that no context uses.
pub open spec fn free_lease(st: SndcpView, ssi: u32) -> Option<Ipv4Addr> {
    if exists|i: int| lease_first(st, ssi, i) {
        Some(st.config.static_lease@[choose|i: int| lease_first(st, ssi, i)].ipv4)
    } else {
        None
    }
}

/// What an activation demand leads to. A context that is up answers a repeated demand;
/// one in transition refuses it. A new context gets the static address it asks for. If it
/// asks for a dynamic one it gets the lease of its terminal, or else the lowest free one.
pub open spec fn activation(st: SndcpView, key: PdpKey, d: DemandView) -> Activation {
    match find_ctx(st.contexts, key) {
        Some(c) => match c.state {
            PdpState::WaitForAccept | PdpState::Ready | PdpState::Standby => Activation::Resend,
            _ => Activation::Refuse(RejectCause::PdpContextAlreadyActive),
        },
        None => if d.atid == 0 {
            if st.pool.contains(requested_address(st.config, d).bits) {
                Activation::Accept(requested_address(st.config, d), Tia::Ipv4Static)
            } else {
                Activation::Refuse(RejectCause::RequestedStaticIpv4NotAvailable)
            }
        } else {
            match free_lease(st, key.ssi) {
                Some(lease) => Activation::Accept(lease, Tia::Ipv4Dynamic),
                None => if st.pool == Set::<u32>::empty() {
                    Activation::Refuse(RejectCause::NoResource)
                } else {
                    Activation::Accept(Ipv4Addr { bits: lowest(st.pool) }, Tia::Ipv4Dynamic)
                },
            }
        },
    }
}

/// A lease that can be used is in use by nobody and not in the pool.
pub proof fn lemma_free_lease(st: SndcpView, ssi: u32)
    requires
        st.wf(),
        free_lease(st, ssi) is Some,
    ensures
        is_leased(st.config.static_lease@, free_lease(st, ssi)->0.bits),
        !in_use(st.contexts, free_lease(st, ssi)->0.bits),
        !st.pool.contains(free_lease(st, ssi)->0.bits),
{
    reveal(SndcpView::wf);
    let i = choose|i: int| lease_first(st, ssi, i);
    assert(lease_first(st, ssi, i));
    assert(st.config.static_lease@[i].ipv4.bits == free_lease(st, ssi)->0.bits);
}

/// The accept for a demand: the configured timers and MTU, the address, and a CHAP success
/// if the demand carried a CHAP packet.
pub open spec fn accept_pdu(config: CfgPacketData, d: DemandView, ip: Ipv4Addr, tia: Tia) -> ActivatePdpContextAccept {
    ActivatePdpContextAccept {
        nsapi: d.nsapi,
        pdu_priority_max: config.timers.pdu_priority_max,
        ready_timer: config.timers.ready_timer,
        standby_timer: config.timers.standby_timer,
        response_wait_timer: config.timers.resp_wait_timer,
        tia,
        ip4_address: Some(ip),
        pcomp: 0,
        vj_slots: None,
        mtu: match mtu_code(config.mtu) {
            Some(c) => c,
            None => 4,
        },
        snei: None,
        pco: match chap_id(d.pco) {
            Some(id) => Some(ChapPacket { code: 3, id, length: 4 }),
            None => None,
        },
    }
}

/// The context that an accepted demand makes: ready at once.
pub open spec fn new_ctx(st: SndcpView, ind: LtpdIndView, d: DemandView, ip: Ipv4Addr, tia: Tia) -> CtxView {
    CtxView {
        key: PdpKey { ssi: ind.received_tetra_address.ssi, nsapi: d.nsapi },
        state: PdpState::Ready,
        ipv4: ip,
        tia,
        last_accept: accept_pdu(st.config, d, ip, tia),
        last_activity: st.dltime,
        ready_deadline: Some(later(st.dltime, READY_TIMER_SLOTS)),
        standby_deadline: None,
        resp_wait_deadline: None,
        pending: Seq::empty(),
        link_id: ind.link_id,
        endpoint_id: ind.endpoint_id,
        al_link: None,
    }
}

/// The entity after an activation demand.
pub open spec fn after_activate(st: SndcpView, ind: LtpdIndView, d: DemandView) -> SndcpView {
    let key = PdpKey { ssi: ind.received_tetra_address.ssi, nsapi: d.nsapi };
    match activation(st, key, d) {
        Activation::Resend => {
            let i = ctx_pos(st.contexts, key)->0;
            st.with_ctx(
                i,
                CtxView {
                    resp_wait_deadline: Some(later(st.dltime, RESP_WAIT_TIMER_SLOTS)),
                    ..st.contexts[i]
                },
            )
        },
        Activation::Refuse(_) => st,
        Activation::Accept(ip, tia) => st.take_on(new_ctx(st, ind, d, ip, tia)),
    }
}

/// The reply to an activation demand.
pub open spec fn activate_reply(st: SndcpView, ind: LtpdIndView, d: DemandView) -> SapMsgView {
    let key = PdpKey { ssi: ind.received_tetra_address.ssi, nsapi: d.nsapi };
    match activation(st, key, d) {
        Activation::Resend => reply_msg(
            ind,
            SnDownlinkView::ActivatePdpContextAccept(
                st.contexts[ctx_pos(st.contexts, key)->0].last_accept,
            ),
        ),
        Activation::Refuse(cause) => reply_msg(
            ind,
            SnDownlinkView::ActivatePdpContextReject { nsapi: d.nsapi, reject_cause: cause },
        ),
        Activation::Accept(ip, tia) => reply_msg(
            ind,
            SnDownlinkView::ActivatePdpContextAccept(accept_pdu(st.config, d, ip, tia)),
        ),
    }
}

// ---- deactivation -------------------------------------------------------------------------

/// The entity after a context has been given up, if it exists.
pub open spec fn after_release(st: SndcpView, key: PdpKey) -> SndcpView {
    match ctx_pos(st.contexts, key) {
        Some(i) => st.release(i),
        None => st,
    }
}

/// The entity after a deactivation accept: only a release that is under way ends.
pub open spec fn after_deactivate_accept(st: SndcpView, key: PdpKey) -> SndcpView {
    match find_ctx(st.contexts, key) {
        Some(c) => if c.state == PdpState::Deactivating {
            after_release(st, key)
        } else {
            st
        },
        None => st,
    }
}

// ---- uplink traffic -------------------------------------------------------------------------

/// The context after traffic from its terminal: ready, its timer started afresh.
pub open spec fn active_ctx(c: CtxView, now: TdmaTime) -> CtxView {
    CtxView {
        state: PdpState::Ready,
        ready_deadline: Some(later(now, READY_TIMER_SLOTS)),
        standby_deadline: None,
        last_activity: now,
        ..c
    }
}

/// The context after data from its terminal, over an advanced link or not: an advanced link
/// is remembered.
pub open spec fn learned_ctx(c: CtxView, from: UplinkOrigin) -> CtxView {
    match from.al_link_number {
        Some(n) => CtxView {
            al_link: Some(
                AlRoute {
                    link_id: from.link_id,
                    endpoint_id: from.endpoint_id,
                    al_link_number: n,
                },
            ),
            ..c
        },
        None => c,
    }
}

/// The entity after an SN-UNITDATA from a terminal. It is passed on from a context that is
/// ready or in standby.
pub open spec fn after_unitdata(st: SndcpView, from: UplinkOrigin, nsapi: u8, payload: Seq<u8>) -> SndcpView {
    let key = PdpKey { ssi: from.address.ssi, nsapi };
    match ctx_pos(st.contexts, key) {
        Some(i) => {
            let c = st.contexts[i];
            if c.state == PdpState::Ready || c.state == PdpState::Standby {
                SndcpView {
                    uplink: st.uplink.push(
                        UplinkView { main_address: from.address, nsapi, payload },
                    ),
                    ..st.with_ctx(i, learned_ctx(active_ctx(c, st.dltime), from))
                }
            } else {
                st
            }
        },
        None => st,
    }
}

/// The entity after an SN-DATA from a terminal. It is passed on also from a context that
/// waits for its link: the data shows that the link is up.
pub open spec fn after_data(st: SndcpView, from: UplinkOrigin, nsapi: u8, payload: Seq<u8>) -> SndcpView {
    let key = PdpKey { ssi: from.address.ssi, nsapi };
    match ctx_pos(st.contexts, key) {
        Some(i) => {
            let c = st.contexts[i];
            if c.state == PdpState::Ready || c.state == PdpState::WaitingForAlSetup || c.state
                == PdpState::Standby {
                SndcpView {
                    uplink: st.uplink.push(
                        UplinkView { main_address: from.address, nsapi, payload },
                    ),
                    ..st.with_ctx(
                        i,
                        CtxView {
                            resp_wait_deadline: None,
                            ..learned_ctx(active_ctx(c, st.dltime), from)
                        },
                    )
                }
            } else {
                st
            }
        },
        None => st,
    }
}

/// Why a request to transmit is refused, if it is.
pub open spec fn transmit_refusal(c: Option<CtxView>) -> Option<TransmitResponseRejectCause> {
    match c {
        None => Some(TransmitResponseRejectCause::UnknownNsapi),
        Some(c) => match c.state {
            PdpState::Ready | PdpState::Standby | PdpState::WaitingForAlSetup => None,
            _ => Some(TransmitResponseRejectCause::SndcpServiceTemporarilyNotAvailable),
        },
    }
}

/// The entity after a request to transmit: an accepted one waits for the link.
pub open spec fn after_transmit_request(st: SndcpView, key: PdpKey) -> SndcpView {
    if transmit_refusal(find_ctx(st.contexts, key)) is Some {
        st
    } else {
        let i = ctx_pos(st.contexts, key)->0;
        st.with_ctx(
            i,
            CtxView {
                state: PdpState::WaitingForAlSetup,
                resp_wait_deadline: Some(later(st.dltime, RESP_WAIT_TIMER_SLOTS)),
                ..st.contexts[i]
            },
        )
    }
}

/// The reply to a request to transmit. With an accepted one the terminal is granted a
/// channel.
pub open spec fn transmit_reply(st: SndcpView, ind: LtpdIndView, nsapi: u8) -> SapMsgView {
    let key = PdpKey { ssi: ind.received_tetra_address.ssi, nsapi };
    let refused = transmit_refusal(find_ctx(st.contexts, key));
    granting_reply_msg(
        ind,
        SnDownlinkView::DataTransmitResponse { nsapi, refused },
        if refused is Some {
            None
        } else {
            Some(pdch_grant())
        },
    )
}

/// The entity after a page response: the context is ready and its packets are on their way.
pub open spec fn after_page_response(st: SndcpView, key: PdpKey) -> SndcpView {
    match ctx_pos(st.contexts, key) {
        Some(i) => if st.contexts[i].state == PdpState::WaitForPageResponse {
            st.with_ctx(
                i,
                CtxView { pending: Seq::empty(), ..active_ctx(st.contexts[i], st.dltime) },
            )
        } else {
            st
        },
        None => st,
    }
}

/// A packet sent to a terminal without confirmation.
pub open spec fn unitdata_msg(addr: TetraAddress, c: CtxView, payload: Seq<u8>) -> SapMsgView {
    downlink_msg(
        addr,
        basic_route(c),
        SnDownlinkView::Unitdata { nsapi: c.key.nsapi, pcomp: 0, dcomp: 0, payload },
        Layer2Service::Unacknowledged,
        true,
        None,
    )
}

/// What a page response sends: the packets that waited, in order.
pub open spec fn page_response_msgs(st: SndcpView, addr: TetraAddress, nsapi: u8) -> Seq<SapMsgView> {
    match find_ctx(st.contexts, PdpKey { ssi: addr.ssi, nsapi }) {
        Some(c) => if c.state == PdpState::WaitForPageResponse {
            Seq::new(c.pending.len(), |k: int| unitdata_msg(addr, c, c.pending[k]))
        } else {
            Seq::empty()
        },
        None => Seq::empty(),
    }
}

/// The context in standby.
pub open spec fn standby_ctx(c: CtxView, now: TdmaTime) -> CtxView {
    CtxView {
        state: PdpState::Standby,
        standby_deadline: Some(later(now, STANDBY_TIMER_SLOTS)),
        ready_deadline: None,
        ..c
    }
}

/// The context called back from standby.
pub open spec fn resumed_ctx(c: CtxView, now: TdmaTime) -> CtxView {
    CtxView {
        state: PdpState::Ready,
        ready_deadline: Some(later(now, READY_TIMER_SLOTS)),
        standby_deadline: None,
        ..c
    }
}

/// The entity after an end of data: every ready context of the terminal goes to standby.
pub open spec fn after_end_of_data(st: SndcpView, ssi: u32) -> SndcpView {
    SndcpView {
        contexts: Seq::new(
            st.contexts.len(),
            |i: int|
                if st.contexts[i].key.ssi == ssi && st.contexts[i].state == PdpState::Ready {
                    standby_ctx(st.contexts[i], st.dltime)
                } else {
                    st.contexts[i]
                },
        ),
        ..st
    }
}

/// The context is one that a reconnection is for.
pub open spec fn reconnects(c: CtxView, ssi: u32, target: Option<u8>) -> bool {
    &&& c.key.ssi == ssi
    &&& target matches Some(n) ==> c.key.nsapi == n
    &&& c.state == PdpState::Standby
}

/// The entity after a reconnection: the context that it names, or every context of the
/// terminal, is called back from standby.
pub open spec fn after_reconnect(st: SndcpView, ssi: u32, target: Option<u8>) -> SndcpView {
    SndcpView {
        contexts: Seq::new(
            st.contexts.len(),
            |i: int|
                if reconnects(st.contexts[i], ssi, target) {
                    resumed_ctx(st.contexts[i], st.dltime)
                } else {
                    st.contexts[i]
                },
        ),
        ..st
    }
}

// ---- downlink traffic ---------------------------------------------------------------------------

/// The place of the context that an address leads to.
pub open spec fn ctx_of_ip(st: SndcpView, ip: Ipv4Addr) -> Option<int> {
    if st.by_ip.contains_key(ip.bits) {
        ctx_pos(st.contexts, st.by_ip[ip.bits])
    } else {
        None
    }
}

/// The entity after a packet for a terminal. In standby the packet waits and the terminal
/// is paged; while it is being paged the packet waits too.
pub open spec fn after_downlink(st: SndcpView, ip: Ipv4Addr, payload: Seq<u8>) -> SndcpView {
    match ctx_of_ip(st, ip) {
        None => st,
        Some(i) => {
            let c = st.contexts[i];
            match c.state {
                PdpState::Ready => st.with_ctx(
                    i,
                    CtxView {
                        ready_deadline: Some(later(st.dltime, READY_TIMER_SLOTS)),
                        last_activity: st.dltime,
                        ..c
                    },
                ),
                PdpState::Standby => st.with_ctx(
                    i,
                    CtxView {
                        pending: c.pending.push(payload),
                        state: PdpState::WaitForPageResponse,
                        ..c
                    },
                ),
                PdpState::WaitForPageResponse => st.with_ctx(
                    i,
                    CtxView { pending: c.pending.push(payload), ..c },
                ),
                _ => st,
            }
        },
    }
}

/// The individual address of a context's terminal.
pub open spec fn ctx_address(c: CtxView) -> TetraAddress {
    TetraAddress { ssi: c.key.ssi, ssi_type: crate::saps::SsiType::Issi }
}

/// What a packet for a terminal sends: the packet itself when the context is ready, a page
/// when it is in standby.
pub open spec fn downlink_msgs(st: SndcpView, ip: Ipv4Addr, payload: Seq<u8>) -> Seq<SapMsgView> {
    match ctx_of_ip(st, ip) {
        None => Seq::empty(),
        Some(i) => {
            let c = st.contexts[i];
            match c.state {
                PdpState::Ready => seq![unitdata_msg(ctx_address(c), c, payload)],
                PdpState::Standby => seq![
                    downlink_msg(
                        ctx_address(c),
                        basic_route(c),
                        SnDownlinkView::PageRequest { nsapi: c.key.nsapi },
                        Layer2Service::Acknowledged,
                        false,
                        None,
                    ),
                ],
                _ => Seq::empty(),
            }
        },
    }
}

/// The address belongs to a context that is ready.
pub open spec fn is_ready(st: SndcpView, ip: Ipv4Addr) -> bool {
    match ctx_of_ip(st, ip) {
        Some(i) => st.contexts[i].state == PdpState::Ready,
        None => false,
    }
}

/// The entity after a packet for a terminal that is to be confirmed: only a ready context
/// takes it.
pub open spec fn after_downlink_acknowledged(st: SndcpView, ip: Ipv4Addr) -> SndcpView {
    match ctx_of_ip(st, ip) {
        None => st,
        Some(i) => if st.contexts[i].state == PdpState::Ready {
            st.with_ctx(
                i,
                CtxView {
                    ready_deadline: Some(later(st.dltime, READY_TIMER_SLOTS)),
                    last_activity: st.dltime,
                    ..st.contexts[i]
                },
            )
        } else {
            st
        },
    }
}

/// What a packet for a terminal that is to be confirmed sends.
pub open spec fn downlink_acknowledged_msgs(st: SndcpView, ip: Ipv4Addr, payload: Seq<u8>) -> Seq<
    SapMsgView,
> {
    match ctx_of_ip(st, ip) {
        None => Seq::empty(),
        Some(i) => {
            let c = st.contexts[i];
            if c.state == PdpState::Ready {
                seq![
                    downlink_msg(
                        ctx_address(c),
                        data_route(c),
                        SnDownlinkView::Data {
                            nsapi: c.key.nsapi,
                            pcomp: 0,
                            dcomp: 0,
                            n_pdu: payload,
                        },
                        Layer2Service::Acknowledged,
                        true,
                        None,
                    ),
                ]
            } else {
                Seq::empty()
            }
        },
    }
}

// ---- timers ------------------------------------------------------------------------------------

/// The entity after a packet from the gateway: a ready context takes it as one to be
/// confirmed.
pub open spec fn after_gateway_downlink(st: SndcpView, ip: Ipv4Addr, payload: Seq<u8>) -> SndcpView {
    if is_ready(st, ip) {
        after_downlink_acknowledged(st, ip)
    } else {
        after_downlink(st, ip, payload)
    }
}

/// What a packet from the gateway sends.
pub open spec fn gateway_downlink_msgs(st: SndcpView, ip: Ipv4Addr, payload: Seq<u8>) -> Seq<SapMsgView> {
    if is_ready(st, ip) {
        downlink_acknowledged_msgs(st, ip, payload)
    } else {
        downlink_msgs(st, ip, payload)
    }
}

/// The context has outlived its standby, or its accept was not confirmed in time.
pub open spec fn ctx_expired(c: CtxView, now: TdmaTime) -> bool {
    match c.state {
        PdpState::Standby => c.standby_deadline matches Some(d) && timer_fired(d, now),
        PdpState::WaitForAccept => c.resp_wait_deadline matches Some(d) && timer_fired(d, now),
        _ => false,
    }
}

/// The context after a look at its timer: a ready one without traffic goes to standby.
pub open spec fn ctx_aged(c: CtxView, now: TdmaTime) -> CtxView {
    if c.state == PdpState::Ready && (c.ready_deadline matches Some(d) && timer_fired(d, now)) {
        standby_ctx(c, now)
    } else {
        c
    }
}

/// The entity after a look at the timers of its first `n` contexts: those that expired are
/// released.
pub open spec fn timer_pass(st: SndcpView, n: nat) -> SndcpView
    decreases n,
{
    if n == 0 {
        SndcpView { contexts: Seq::empty(), ..st }
    } else {
        let before = timer_pass(st, (n - 1) as nat);
        let c = st.contexts[n - 1];
        if ctx_expired(c, st.dltime) {
            SndcpView {
                pool: given_back(st.config, before.pool, c.ipv4.bits),
                by_ip: before.by_ip.remove(c.ipv4.bits),
                ..before
            }
        } else {
            SndcpView { contexts: before.contexts.push(ctx_aged(c, st.dltime)), ..before }
        }
    }
}

/// The entity after a look at all its timers.
pub open spec fn after_timers(st: SndcpView) -> SndcpView {
    timer_pass(st, st.contexts.len())
}

/// What holds after a look at the first `n` contexts, of those contexts and the rest.
pub proof fn lemma_timer_pass(st: SndcpView, n: nat)
    requires
        st.wf(),
        n <= st.contexts.len(),
    ensures
        ({
            let p = timer_pass(st, n);
            &&& p.config == st.config && p.dltime == st.dltime && p.uplink == st.uplink
            &&& ctxs_distinct(p.contexts)
            &&& p.contexts.len() <= n
            &&& forall|k: int|
                0 <= k < p.contexts.len() ==> exists|i: int|
                    0 <= i < n && (#[trigger] st.contexts[i]).key == (#[trigger] p.contexts[k]).key
                        && st.contexts[i].ipv4 == p.contexts[k].ipv4 && !ctx_expired(
                        st.contexts[i],
                        st.dltime,
                    )
            &&& forall|i: int|
                0 <= i < n && !ctx_expired(#[trigger] st.contexts[i], st.dltime) ==> in_use(
                    p.contexts,
                    st.contexts[i].ipv4.bits,
                )
            &&& forall|a: u32| #[trigger]
                p.pool.contains(a) <==> st.pool.contains(a) || !is_leased(
                    st.config.static_lease@,
                    a,
                ) && exists|i: int|
                    0 <= i < n && (#[trigger] st.contexts[i]).ipv4.bits == a && ctx_expired(
                        st.contexts[i],
                        st.dltime,
                    )
            &&& forall|a: u32| #[trigger]
                p.by_ip.contains_key(a) <==> st.by_ip.contains_key(a) && !(exists|i: int|
                    0 <= i < n && (#[trigger] st.contexts[i]).ipv4.bits == a && ctx_expired(
                        st.contexts[i],
                        st.dltime,
                    ))
            &&& forall|a: u32| #[trigger] p.by_ip.contains_key(a) ==> p.by_ip[a] == st.by_ip[a]
        }),
    decreases n,
{
    reveal(SndcpView::wf);
    if n > 0 {
        lemma_timer_pass(st, (n - 1) as nat);
        let b = timer_pass(st, (n - 1) as nat);
        let p = timer_pass(st, n);
        let c = st.contexts[n - 1];
        if ctx_expired(c, st.dltime) {
            assert forall|a: u32| #[trigger]
                p.pool.contains(a) <==> st.pool.contains(a) || !is_leased(
                    st.config.static_lease@,
                    a,
                ) && exists|i: int|
                    0 <= i < n && (#[trigger] st.contexts[i]).ipv4.bits == a && ctx_expired(
                        st.contexts[i],
                        st.dltime,
                    ) by {
                if a == c.ipv4.bits {
                    assert(st.contexts[n - 1].ipv4.bits == a);
                } else {
                    assert(b.pool.contains(a) == p.pool.contains(a));
                }
            }
            assert forall|a: u32| #[trigger]
                p.by_ip.contains_key(a) <==> st.by_ip.contains_key(a) && !(exists|i: int|
                    0 <= i < n && (#[trigger] st.contexts[i]).ipv4.bits == a && ctx_expired(
                        st.contexts[i],
                        st.dltime,
                    )) by {
                if a == c.ipv4.bits {
                    assert(st.contexts[n - 1].ipv4.bits == a);
                } else {
                    assert(b.by_ip.contains_key(a) == p.by_ip.contains_key(a));
                }
            }
        } else {
            let m = b.contexts.len() as int;
            assert(p.contexts[m].ipv4 == c.ipv4 && p.contexts[m].key == c.key);
            assert forall|k: int| 0 <= k < p.contexts.len() implies exists|i: int|
                0 <= i < n && (#[trigger] st.contexts[i]).key == (#[trigger] p.contexts[k]).key
                    && st.contexts[i].ipv4 == p.contexts[k].ipv4 && !ctx_expired(
                    st.contexts[i],
                    st.dltime,
                ) by {
                if k < m {
                    assert(p.contexts[k] == b.contexts[k]);
                    let i = choose|i: int|
                        0 <= i < n - 1 && (#[trigger] st.contexts[i]).key == b.contexts[k].key
                            && st.contexts[i].ipv4 == b.contexts[k].ipv4 && !ctx_expired(
                            st.contexts[i],
                            st.dltime,
                        );
                    assert(st.contexts[i].key == p.contexts[k].key);
                } else {
                    assert(st.contexts[n - 1].key == p.contexts[k].key);
                }
            }
            assert forall|i: int, j: int| 0 <= i < j < p.contexts.len() implies (
            #[trigger] p.contexts[i]).key != (#[trigger] p.contexts[j]).key
                && p.contexts[i].ipv4.bits != p.contexts[j].ipv4.bits by {
                assert(p.contexts[i] == b.contexts[i]);
                if j < m {
                    assert(p.contexts[j] == b.contexts[j]);
                } else {
                    let i0 = choose|i0: int|
                        0 <= i0 < n - 1 && (#[trigger] st.contexts[i0]).key == b.contexts[i].key
                            && st.contexts[i0].ipv4 == b.contexts[i].ipv4 && !ctx_expired(
                            st.contexts[i0],
                            st.dltime,
                        );
                    assert(st.contexts[i0].key != st.contexts[n - 1].key);
                }
            }
            assert forall|i: int|
                0 <= i < n && !ctx_expired(#[trigger] st.contexts[i], st.dltime) implies in_use(
                p.contexts,
                st.contexts[i].ipv4.bits,
            ) by {
                if i < n - 1 {
                    assert(in_use(b.contexts, st.contexts[i].ipv4.bits));
                    let k = choose|k: int|
                        0 <= k < b.contexts.len() && (#[trigger] b.contexts[k]).ipv4.bits
                            == st.contexts[i].ipv4.bits;
                    assert(p.contexts[k].ipv4.bits == st.contexts[i].ipv4.bits);
                } else {
                    assert(p.contexts[m].ipv4.bits == st.contexts[i].ipv4.bits);
                }
            }
            assert forall|a: u32| #[trigger]
                p.pool.contains(a) <==> st.pool.contains(a) || !is_leased(
                    st.config.static_lease@,
                    a,
                ) && exists|i: int|
                    0 <= i < n && (#[trigger] st.contexts[i]).ipv4.bits == a && ctx_expired(
                        st.contexts[i],
                        st.dltime,
                    ) by {
                assert(b.pool.contains(a) == p.pool.contains(a));
            }
            assert forall|a: u32| #[trigger]
                p.by_ip.contains_key(a) <==> st.by_ip.contains_key(a) && !(exists|i: int|
                    0 <= i < n && (#[trigger] st.contexts[i]).ipv4.bits == a && ctx_expired(
                        st.contexts[i],
                        st.dltime,
                    )) by {
                assert(b.by_ip.contains_key(a) == p.by_ip.contains_key(a));
            }
        }
    }
}

/// A look at the timers keeps the entity well formed.
pub proof fn lemma_after_timers_wf(st: SndcpView)
    requires
        st.wf(),
    ensures
        after_timers(st).wf(),
{
    reveal(SndcpView::wf);
    let n = st.contexts.len();
    let p = after_timers(st);
    lemma_timer_pass(st, n);
    assert forall|a: u32| in_use(p.contexts, a) <==> in_use(st.contexts, a) && !(exists|i: int|
        0 <= i < n && (#[trigger] st.contexts[i]).ipv4.bits == a && ctx_expired(
            st.contexts[i],
            st.dltime,
        )) by {
        if in_use(p.contexts, a) {
            let k = choose|k: int|
                0 <= k < p.contexts.len() && (#[trigger] p.contexts[k]).ipv4.bits == a;
            let i = choose|i: int|
                0 <= i < n && (#[trigger] st.contexts[i]).key == p.contexts[k].key
                    && st.contexts[i].ipv4 == p.contexts[k].ipv4 && !ctx_expired(
                    st.contexts[i],
                    st.dltime,
                );
            assert(st.contexts[i].ipv4.bits == a);
            assert forall|j: int|
                0 <= j < n && (#[trigger] st.contexts[j]).ipv4.bits == a implies j == i by {
                if j < i {
                    assert(st.contexts[j].ipv4.bits != st.contexts[i].ipv4.bits);
                }
                if i < j {
                    assert(st.contexts[i].ipv4.bits != st.contexts[j].ipv4.bits);
                }
            }
        }
        if in_use(st.contexts, a) && !(exists|i: int|
            0 <= i < n && (#[trigger] st.contexts[i]).ipv4.bits == a && ctx_expired(
                st.contexts[i],
                st.dltime,
            )) {
            let i = choose|i: int|
                0 <= i < st.contexts.len() && (#[trigger] st.contexts[i]).ipv4.bits == a;
            assert(!ctx_expired(st.contexts[i], st.dltime));
        }
    }
    assert forall|k: int| 0 <= k < p.contexts.len() implies is_grantable(
        p.config,
        (#[trigger] p.contexts[k]).ipv4.bits,
    ) && p.by_ip[p.contexts[k].ipv4.bits] == p.contexts[k].key by {
        let i = choose|i: int|
            0 <= i < n && (#[trigger] st.contexts[i]).key == p.contexts[k].key
                && st.contexts[i].ipv4 == p.contexts[k].ipv4 && !ctx_expired(
                st.contexts[i],
                st.dltime,
            );
        let a = st.contexts[i].ipv4.bits;
        assert(st.by_ip[a] == st.contexts[i].key);
        assert(in_use(p.contexts, a));
        assert(in_use(st.contexts, a));
        assert(st.by_ip.contains_key(a));
        assert(p.by_ip.contains_key(a));
        assert(is_grantable(st.config, st.contexts[i].ipv4.bits));
    }
    assert forall|a: u32| #[trigger] p.pool.contains(a) <==> pool_universe(p.config).contains(a)
        && !in_use(p.contexts, a) by {
        if exists|i: int|
            0 <= i < n && (#[trigger] st.contexts[i]).ipv4.bits == a && ctx_expired(
                st.contexts[i],
                st.dltime,
            ) {
            let i = choose|i: int|
                0 <= i < n && (#[trigger] st.contexts[i]).ipv4.bits == a && ctx_expired(
                    st.contexts[i],
                    st.dltime,
                );
            assert(is_grantable(st.config, st.contexts[i].ipv4.bits));
        } else {
            assert(in_use(p.contexts, a) == in_use(st.contexts, a));
            assert(st.pool.contains(a) <==> pool_universe(st.config).contains(a) && !in_use(
                st.contexts,
                a,
            ));
        }
    }
}

// ---- dispatch ------------------------------------------------------------------------------------

/// The entity after an uplink SN-PDU.
pub open spec fn after_uplink(st: SndcpView, ind: LtpdIndView) -> SndcpView {
    let addr = ind.received_tetra_address;
    match ind.pdu {
        SnUplinkView::ActivatePdpContextDemand(d) => after_activate(st, ind, d),
        SnUplinkView::DeactivatePdpContextDemand { nsapi } => after_release(
            st,
            PdpKey { ssi: addr.ssi, nsapi },
        ),
        SnUplinkView::DeactivatePdpContextAccept { nsapi } => after_deactivate_accept(
            st,
            PdpKey { ssi: addr.ssi, nsapi },
        ),
        SnUplinkView::Unitdata { nsapi, payload } => after_unitdata(
            st,
            origin(ind),
            nsapi,
            payload,
        ),
        SnUplinkView::Data { nsapi, n_pdu } => after_data(st, origin(ind), nsapi, n_pdu),
        SnUplinkView::DataTransmitRequest { nsapi } => after_transmit_request(
            st,
            PdpKey { ssi: addr.ssi, nsapi },
        ),
        SnUplinkView::PageResponse { nsapi } => after_page_response(
            st,
            PdpKey { ssi: addr.ssi, nsapi },
        ),
        SnUplinkView::EndOfData { immediate_service_change } => after_end_of_data(st, addr.ssi),
        SnUplinkView::Reconnect { target } => after_reconnect(st, addr.ssi, target),
        SnUplinkView::Other => st,
        SnUplinkView::Malformed => st,
    }
}

/// The entity after a message: only an uplink indication counts.
pub open spec fn after_message(st: SndcpView, m: SapMsgView) -> SndcpView {
    match m.msg {
        SapInnerView::LtpdMleUnitdataInd(ind) => after_uplink(st, ind),
        _ => st,
    }
}

/// What a message makes the entity send.
pub open spec fn message_msgs(st: SndcpView, m: SapMsgView) -> Seq<SapMsgView> {
    match m.msg {
        SapInnerView::LtpdMleUnitdataInd(ind) => uplink_msgs(st, ind),
        _ => Seq::empty(),
    }
}

/// What an uplink SN-PDU sends.
pub open spec fn uplink_msgs(st: SndcpView, ind: LtpdIndView) -> Seq<SapMsgView> {
    let addr = ind.received_tetra_address;
    match ind.pdu {
        SnUplinkView::ActivatePdpContextDemand(d) => seq![activate_reply(st, ind, d)],
        SnUplinkView::DeactivatePdpContextDemand { nsapi } => if find_ctx(
            st.contexts,
            PdpKey { ssi: addr.ssi, nsapi },
        ) is Some {
            seq![reply_msg(ind, SnDownlinkView::DeactivatePdpContextAccept { nsapi })]
        } else {
            Seq::empty()
        },
        SnUplinkView::DataTransmitRequest { nsapi } => seq![transmit_reply(st, ind, nsapi)],
        SnUplinkView::PageResponse { nsapi } => page_response_msgs(st, addr, nsapi),
        _ => Seq::empty(),
    }
}

impl Sndcp {
    /// An entity without contexts.
    pub fn new(config: CfgPacketData) -> (r: Sndcp)
        requires
            config.ipv4_pool_prefix <= 32,
        ensures
            r@ == (SndcpView {
                config,
                pool: pool_universe(config),
                contexts: Seq::empty(),
                by_ip: Map::empty(),
                uplink: Seq::empty(),
                dltime: TdmaTime { h: 0, m: 1, f: 1, t: 1 },
            }),
            r@.wf(),
    {
        proof {
            reveal(SndcpView::wf);
        }
        broadcast use vstd::std_specs::hash::group_hash_axioms;

        let ipv4_pool: Ipv4Pool = Ipv4Pool::from_config(&config);
        let r = Sndcp {
            config,
            ipv4_pool,
            contexts: Vec::new(),
            ipv4_to_key: HashMap::new(),
            uplink_ip_queue: Vec::new(),
            dltime: TdmaTime::default(),
        };
        assert(r@.contexts =~= Seq::<CtxView>::empty());
        assert(r@.uplink =~= Seq::<UplinkView>::empty());
        r
    }

    /// The place of the context with the given key.
    pub fn find_context(&self, key: &PdpKey) -> (r: Option<usize>)
        requires
            self@.wf(),
        ensures
            match r {
                Some(i) => ctx_pos(self@.contexts, *key) == Some(i as int) && has_ctx(
                    self@.contexts,
                    *key,
                    i as int,
                ) && i < self.contexts@.len() && find_ctx(self@.contexts, *key) == Some(
                    self.contexts@[i as int]@,
                ),
                None => ctx_pos(self@.contexts, *key) is None,
            },
    {
        proof {
            reveal(SndcpView::wf);
        }
        let ghost s = self@.contexts;
        let mut i: usize = 0;
        while i < self.contexts.len()
            invariant
                i <= self.contexts@.len(),
                s == self@.contexts,
                ctxs_distinct(s),
                forall|j: int| 0 <= j < i ==> !has_ctx(s, *key, j),
            decreases self.contexts@.len() - i,
        {
            assert(s[i as int] == self.contexts@[i as int]@);
            if self.contexts[i].key == *key {
                proof {
                    lemma_ctx_pos(s, *key, i as int);
                }
                return Some(i);
            }
            i = i + 1;
        }
        None
    }

    /// Releases context `i`.
    fn release_at(&mut self, i: usize)
        requires
            old(self)@.wf(),
            i < old(self)@.contexts.len(),
        ensures
            final(self)@ == old(self)@.release(i as int),
            final(self)@.wf(),
    {
        broadcast use vstd::std_specs::hash::group_hash_axioms;

        let ghost st = self@;
        proof {
            lemma_release_wf(st, i as int);
        }
        let ctx: PdpContext = self.contexts.remove(i);
        assert(ctx@ == st.contexts[i as int]);
        if !leased(&self.config.static_lease, ctx.ipv4.bits) {
            self.ipv4_pool.free(ctx.ipv4);
        }
        self.ipv4_to_key.remove(&ctx.ipv4.bits);
        assert(self@.contexts =~= st.contexts.remove(i as int));
        assert(self@ =~= st.release(i as int));
    }

    /// Gives up the context of an activation whose accept could not be encoded: nothing of
    /// it is left.
    pub fn abort_activation(&mut self, key: PdpKey)
        requires
            old(self)@.wf(),
        ensures
            final(self)@ == after_release(old(self)@, key),
            final(self)@.wf(),
    {
        if let Some(i) = self.find_context(&key) {
            self.release_at(i);
        }
    }

    /// Answers a repeated demand of context `i`.
    fn resend_accept(&mut self, queue: &mut MessageQueue, ind: &LtpdMleUnitdataInd, i: usize)
        requires
            old(self)@.wf(),
            i < old(self)@.contexts.len(),
        ensures
            final(self)@ == old(self)@.with_ctx(
                i as int,
                CtxView {
                    resp_wait_deadline: Some(later(old(self)@.dltime, RESP_WAIT_TIMER_SLOTS)),
                    ..old(self)@.contexts[i as int]
                },
            ),
            final(self)@.wf(),
            final(queue)@ == old(queue)@.push(
                reply_msg(
                    ind@,
                    SnDownlinkView::ActivatePdpContextAccept(
                        old(self)@.contexts[i as int].last_accept,
                    ),
                ),
            ),
    {
        let ghost st = self@;
        assert(self.contexts@[i as int]@ == st.contexts[i as int]);
        let deadline: TdmaTime = self.dltime.add_timeslots(RESP_WAIT_TIMER_SLOTS);
        let accept: ActivatePdpContextAccept = self.contexts[i].last_accept;
        self.contexts[i].resp_wait_deadline = Some(deadline);
        proof {
            let c = CtxView {
                resp_wait_deadline: Some(later(st.dltime, RESP_WAIT_TIMER_SLOTS)),
                ..st.contexts[i as int]
            };
            lemma_with_ctx_wf(st, i as int, c);
            assert(self@.contexts =~= st.contexts.update(i as int, c));
        }
        send_reply(queue, ind, SnDownlink::ActivatePdpContextAccept(accept));
    }

    /// See [`free_lease`].
    fn find_lease(&self, ssi: u32) -> (r: Option<Ipv4Addr>)
        ensures
            r == free_lease(self@, ssi),
    {
        broadcast use vstd::std_specs::hash::group_hash_axioms;

        let ghost st = self@;
        let mut i: usize = 0;
        while i < self.config.static_lease.len()
            invariant
                i <= self.config.static_lease@.len(),
                st == self@,
                forall|j: int| 0 <= j < i ==> !lease_usable(st, ssi, j),
            decreases self.config.static_lease@.len() - i,
        {
            let lease: CfgStaticLease = self.config.static_lease[i];
            if lease.issi == ssi && !self.ipv4_to_key.contains_key(&lease.ipv4.bits) {
                proof {
                    assert(lease_first(st, ssi, i as int));
                    let c = choose|k: int| lease_first(st, ssi, k);
                    assert(lease_first(st, ssi, c));
                    assert(c == i);
                }
                return Some(lease.ipv4);
            }
            i = i + 1;
        }
        None
    }

    /// Takes the address for a new context of a terminal, or says why there is none. A lease
    /// is not in the pool; another address is taken out of it.
    fn take_address(&mut self, ssi: u32, demand: &ActivatePdpContextDemand) -> (r: Result<
        (Ipv4Addr, Tia),
        RejectCause,
    >)
        requires
            old(self)@.wf(),
        ensures
            match r {
                Ok((ip, tia)) => {
                    &&& is_grantable(old(self)@.config, ip.bits)
                    &&& !in_use(old(self)@.contexts, ip.bits)
                    &&& if demand.atid == 0 {
                        &&& old(self)@.pool.contains(ip.bits)
                        &&& ip == requested_address(old(self)@.config, demand@)
                        &&& tia == Tia::Ipv4Static
                    } else {
                        &&& match free_lease(old(self)@, ssi) {
                            Some(lease) => ip == lease,
                            None => old(self)@.pool.contains(ip.bits) && ip.bits == lowest(
                                old(self)@.pool,
                            ),
                        }
                        &&& tia == Tia::Ipv4Dynamic
                    }
                    &&& final(self)@ == (SndcpView {
                        pool: old(self)@.pool.remove(ip.bits),
                        ..old(self)@
                    })
                },
                Err(cause) => final(self)@ == old(self)@ && (if demand.atid == 0 {
                    !old(self)@.pool.contains(
                        requested_address(old(self)@.config, demand@).bits,
                    ) && cause == RejectCause::RequestedStaticIpv4NotAvailable
                } else {
                    free_lease(old(self)@, ssi) is None && old(self)@.pool == Set::<u32>::empty()
                        && cause == RejectCause::NoResource
                }),
            },
    {
        let ghost st = self@;
        proof {
            reveal(SndcpView::wf);
        }
        if demand.atid == 0 {
            let requested: Ipv4Addr = match demand.ip_address {
                Some(ip) => ip,
                None => self.config.ipv4_pool_base,
            };
            match self.ipv4_pool.allocate_specific(requested) {
                Some(ip) => Ok((ip, Tia::Ipv4Static)),
                None => Err(RejectCause::RequestedStaticIpv4NotAvailable),
            }
        } else if let Some(lease) = self.find_lease(ssi) {
            proof {
                lemma_free_lease(st, ssi);
                assert(!st.pool.contains(lease.bits));
                assert(st.pool.remove(lease.bits) =~= st.pool);
            }
            Ok((lease, Tia::Ipv4Dynamic))
        } else {
            match self.ipv4_pool.allocate() {
                Some(ip) => {
                    proof {
                        assert(st.pool.contains(ip.bits) && forall|b: u32| #[trigger]
                            st.pool.contains(b) ==> ip.bits <= b);
                        assert(lowest(st.pool) == ip.bits);
                    }
                    Ok((ip, Tia::Ipv4Dynamic))
                },
                None => Err(RejectCause::NoResource),
            }
        }
    }

    /// The accept for a demand; see [`accept_pdu`].
    fn build_accept(&self, demand: &ActivatePdpContextDemand, ipv4: Ipv4Addr, tia: Tia) -> (r:
        ActivatePdpContextAccept)
        ensures
            r == accept_pdu(self@.config, demand@, ipv4, tia),
    {
        let pco: Option<ChapPacket> = match chap_id_from_pco(&demand.pco) {
            Some(id) => Some(ChapPacket { code: 3, id, length: 4 }),
            None => None,
        };
        let mtu: u8 = match mtu_to_code(self.config.mtu) {
            Some(c) => c,
            None => 4,
        };
        ActivatePdpContextAccept {
            nsapi: demand.nsapi,
            pdu_priority_max: self.config.timers.pdu_priority_max,
            ready_timer: self.config.timers.ready_timer,
            standby_timer: self.config.timers.standby_timer,
            response_wait_timer: self.config.timers.resp_wait_timer,
            tia,
            ip4_address: Some(ipv4),
            pcomp: 0,
            vj_slots: None,
            mtu,
            snei: None,
            pco,
        }
    }

    /// Adds a context and enters its address in the index.
    fn insert_context(&mut self, ctx: PdpContext)
        ensures
            final(self)@ == (SndcpView {
                contexts: old(self)@.contexts.push(ctx@),
                by_ip: old(self)@.by_ip.insert(ctx@.ipv4.bits, ctx@.key),
                ..old(self)@
            }),
    {
        broadcast use vstd::std_specs::hash::group_hash_axioms;

        let ghost st = self@;
        self.ipv4_to_key.insert(ctx.ipv4.bits, ctx.key);
        self.contexts.push(ctx);
        assert(self@.contexts =~= st.contexts.push(ctx@));
        assert(self@.by_ip =~= st.by_ip.insert(ctx@.ipv4.bits, ctx@.key));
    }

    /// Serves an activation demand; see [`after_activate`] and [`activate_reply`].
    #[verifier::rlimit(50)]
    pub fn on_activate_demand(
        &mut self,
        queue: &mut MessageQueue,
        ind: &LtpdMleUnitdataInd,
        demand: &ActivatePdpContextDemand,
    )
        requires
            old(self)@.wf(),
        ensures
            final(self)@ == after_activate(old(self)@, ind@, demand@),
            final(self)@.wf(),
            final(queue)@ == old(queue)@.push(activate_reply(old(self)@, ind@, demand@)),
    {
        let ghost st = self@;
        let nsapi: u8 = demand.nsapi;
        let key: PdpKey = PdpKey::new(ind.received_tetra_address, nsapi);
        if let Some(i) = self.find_context(&key) {
            match self.contexts[i].state {
                PdpState::WaitForAccept | PdpState::Ready | PdpState::Standby => {
                    self.resend_accept(queue, ind, i);
                },
                _ => {
                    self.send_reject(queue, ind, nsapi, RejectCause::PdpContextAlreadyActive);
                },
            }
            return;
        }
        let (ipv4, tia): (Ipv4Addr, Tia) = match self.take_address(
            ind.received_tetra_address.ssi,
            demand,
        ) {
            Ok(t) => t,
            Err(cause) => {
                self.send_reject(queue, ind, nsapi, cause);
                return;
            },
        };
        let accept: ActivatePdpContextAccept = self.build_accept(demand, ipv4, tia);
        let ctx = PdpContext {
            key,
            state: PdpState::Ready,
            ipv4,
            tia,
            last_accept: accept,
            last_activity: self.dltime,
            ready_deadline: Some(self.dltime.add_timeslots(READY_TIMER_SLOTS)),
            standby_deadline: None,
            resp_wait_deadline: None,
            pending_downlink: Vec::new(),
            link_id: ind.link_id,
            endpoint_id: ind.endpoint_id,
            al_link: None,
        };
        let ghost cv = new_ctx(st, ind@, demand@, ipv4, tia);
        assert(ctx@ =~= cv);
        self.insert_context(ctx);
        proof {
            lemma_take_on_wf(st, cv);
            assert(self@ == st.take_on(cv));
        }
        send_reply(queue, ind, SnDownlink::ActivatePdpContextAccept(accept));
    }

    /// Refuses an activation.
    pub fn send_reject(
        &self,
        queue: &mut MessageQueue,
        ind: &LtpdMleUnitdataInd,
        nsapi: u8,
        cause: RejectCause,
    )
        ensures
            final(queue)@ == old(queue)@.push(
                reply_msg(
                    ind@,
                    SnDownlinkView::ActivatePdpContextReject { nsapi, reject_cause: cause },
                ),
            ),
    {
        send_reply(
            queue,
            ind,
            SnDownlink::ActivatePdpContextReject { nsapi, reject_cause: cause },
        );
    }

    /// Serves a deactivation demand: a known context is confirmed and released.
    pub fn on_deactivate_demand(
        &mut self,
        queue: &mut MessageQueue,
        ind: &LtpdMleUnitdataInd,
        nsapi: u8,
    )
        requires
            old(self)@.wf(),
        ensures
            final(self)@ == after_release(
                old(self)@,
                PdpKey { ssi: ind.received_tetra_address.ssi, nsapi },
            ),
            final(self)@.wf(),
            final(queue)@ == old(queue)@ + (if find_ctx(
                old(self)@.contexts,
                PdpKey { ssi: ind.received_tetra_address.ssi, nsapi },
            ) is Some {
                seq![reply_msg(ind@, SnDownlinkView::DeactivatePdpContextAccept { nsapi })]
            } else {
                Seq::empty()
            }),
    {
        let ghost q = queue@;
        assert(q + Seq::<SapMsgView>::empty() =~= q);
        let key: PdpKey = PdpKey::new(ind.received_tetra_address, nsapi);
        if let Some(i) = self.find_context(&key) {
            send_reply(queue, ind, SnDownlink::DeactivatePdpContextAccept { nsapi });
            self.release_at(i);
            assert(queue@ =~= q + seq![
                reply_msg(ind@, SnDownlinkView::DeactivatePdpContextAccept { nsapi }),
            ]);
        }
    }

    /// Serves a deactivation accept; see [`after_deactivate_accept`].
    pub fn on_deactivate_accept(&mut self, addr: TetraAddress, nsapi: u8)
        requires
            old(self)@.wf(),
        ensures
            final(self)@ == after_deactivate_accept(old(self)@, PdpKey { ssi: addr.ssi, nsapi }),
            final(self)@.wf(),
    {
        let key: PdpKey = PdpKey::new(addr, nsapi);
        if let Some(i) = self.find_context(&key) {
            if self.contexts[i].state == PdpState::Deactivating {
                self.release_at(i);
            }
        }
    }

    /// Marks context `i` as active.
    fn touch_at(&mut self, i: usize)
        requires
            old(self)@.wf(),
            i < old(self)@.contexts.len(),
        ensures
            final(self)@ == old(self)@.with_ctx(
                i as int,
                active_ctx(old(self)@.contexts[i as int], old(self)@.dltime),
            ),
            final(self)@.wf(),
    {
        let ghost st = self@;
        assert(self.contexts@[i as int]@ == st.contexts[i as int]);
        let now: TdmaTime = self.dltime;
        let deadline: TdmaTime = now.add_timeslots(READY_TIMER_SLOTS);
        let c: &mut PdpContext = &mut self.contexts[i];
        c.state = PdpState::Ready;
        c.ready_deadline = Some(deadline);
        c.standby_deadline = None;
        c.last_activity = now;
        proof {
            let cv = active_ctx(st.contexts[i as int], st.dltime);
            lemma_with_ctx_wf(st, i as int, cv);
            assert(self@.contexts =~= st.contexts.update(i as int, cv));
        }
    }

    /// Passes a packet on to the gateway.
    fn push_uplink(&mut self, packet: GatewayUplink)
        ensures
            final(self)@ == (SndcpView { uplink: old(self)@.uplink.push(packet@), ..old(self)@ }),
    {
        self.uplink_ip_queue.push(packet);
        assert(self@.uplink =~= old(self)@.uplink.push(packet@));
    }

    /// Remembers the advanced link that data of context `i` came over.
    fn learn_link(&mut self, i: usize, from: UplinkOrigin)
        requires
            old(self)@.wf(),
            i < old(self)@.contexts.len(),
        ensures
            final(self)@ == old(self)@.with_ctx(
                i as int,
                learned_ctx(old(self)@.contexts[i as int], from),
            ),
            final(self)@.wf(),
    {
        let ghost st = self@;
        let ghost cv = learned_ctx(st.contexts[i as int], from);
        assert(self.contexts@[i as int]@ == st.contexts[i as int]);
        proof {
            lemma_with_ctx_wf(st, i as int, cv);
        }
        if let Some(n) = from.al_link_number {
            self.contexts[i].al_link = Some(
                AlRoute {
                    link_id: from.link_id,
                    endpoint_id: from.endpoint_id,
                    al_link_number: n,
                },
            );
        }
        assert(self@.contexts =~= st.contexts.update(i as int, cv));
    }

    /// Serves an SN-UNITDATA; see [`after_unitdata`].
    pub fn on_uplink_unitdata(&mut self, from: UplinkOrigin, nsapi: u8, payload: Vec<u8>)
        requires
            old(self)@.wf(),
        ensures
            final(self)@ == after_unitdata(old(self)@, from, nsapi, payload@),
            final(self)@.wf(),
    {
        proof {
            reveal(SndcpView::wf);
        }
        let ghost st = self@;
        let ghost octets = payload@;
        let key: PdpKey = PdpKey::new(from.address, nsapi);
        let i: usize = match self.find_context(&key) {
            Some(i) => i,
            None => {
                return;
            },
        };
        let state: PdpState = self.contexts[i].state;
        if state != PdpState::Ready && state != PdpState::Standby {
            return;
        }
        self.touch_at(i);
        self.learn_link(i, from);
        self.push_uplink(GatewayUplink { main_address: from.address, nsapi, payload });
        assert(self@ =~= after_unitdata(st, from, nsapi, octets));
    }

    /// Serves an SN-DATA; see [`after_data`].
    pub fn on_uplink_data(&mut self, from: UplinkOrigin, nsapi: u8, n_pdu: Vec<u8>)
        requires
            old(self)@.wf(),
        ensures
            final(self)@ == after_data(old(self)@, from, nsapi, n_pdu@),
            final(self)@.wf(),
    {
        proof {
            reveal(SndcpView::wf);
        }
        let ghost st = self@;
        let ghost payload = n_pdu@;
        let key: PdpKey = PdpKey::new(from.address, nsapi);
        let i: usize = match self.find_context(&key) {
            Some(i) => i,
            None => {
                return;
            },
        };
        let state: PdpState = self.contexts[i].state;
        if state != PdpState::Ready && state != PdpState::WaitingForAlSetup && state
            != PdpState::Standby {
            return;
        }
        self.touch_at(i);
        self.learn_link(i, from);
        let ghost st1 = self@;
        assert(self.contexts@.len() == st1.contexts.len());
        self.contexts[i].resp_wait_deadline = None;
        proof {
            let cv = CtxView { resp_wait_deadline: None, ..st1.contexts[i as int] };
            lemma_with_ctx_wf(st1, i as int, cv);
            assert(self@.contexts =~= st1.contexts.update(i as int, cv));
        }
        self.push_uplink(GatewayUplink { main_address: from.address, nsapi, payload: n_pdu });
        assert(self@ =~= after_data(st, from, nsapi, payload));
    }

    /// Serves a request to transmit; see [`transmit_reply`] and
    /// [`after_transmit_request`].
    pub fn on_data_transmit_request(
        &mut self,
        queue: &mut MessageQueue,
        ind: &LtpdMleUnitdataInd,
        nsapi: u8,
    )
        requires
            old(self)@.wf(),
        ensures
            final(self)@ == after_transmit_request(
                old(self)@,
                PdpKey { ssi: ind.received_tetra_address.ssi, nsapi },
            ),
            final(self)@.wf(),
            final(queue)@ == old(queue)@.push(transmit_reply(old(self)@, ind@, nsapi)),
    {
        let ghost st = self@;
        let key: PdpKey = PdpKey::new(ind.received_tetra_address, nsapi);
        let found: Option<usize> = self.find_context(&key);
        let refused: Option<TransmitResponseRejectCause> = match found {
            None => Some(TransmitResponseRejectCause::UnknownNsapi),
            Some(i) => match self.contexts[i].state {
                PdpState::Ready | PdpState::Standby | PdpState::WaitingForAlSetup => None,
                _ => Some(TransmitResponseRejectCause::SndcpServiceTemporarilyNotAvailable),
            },
        };
        if refused.is_none() {
            if let Some(i) = found {
                let deadline: TdmaTime = self.dltime.add_timeslots(RESP_WAIT_TIMER_SLOTS);
                let c: &mut PdpContext = &mut self.contexts[i];
                c.state = PdpState::WaitingForAlSetup;
                c.resp_wait_deadline = Some(deadline);
                proof {
                    let cv = CtxView {
                        state: PdpState::WaitingForAlSetup,
                        resp_wait_deadline: Some(later(st.dltime, RESP_WAIT_TIMER_SLOTS)),
                        ..st.contexts[i as int]
                    };
                    lemma_with_ctx_wf(st, i as int, cv);
                    assert(self@.contexts =~= st.contexts.update(i as int, cv));
                }
            }
        }
        let chan_alloc: Option<CmceChanAllocReq> = if refused.is_none() {
            Some(
                CmceChanAllocReq {
                    usage: None,
                    timeslots: TimeslotSet::only(4),
                    alloc_type: ChanAllocType::Additional,
                    ul_dl_assigned: UlDlAssignment::Both,
                    carrier: None,
                },
            )
        } else {
            None
        };
        send_granting_reply(
            queue,
            ind,
            SnDownlink::DataTransmitResponse { nsapi, refused },
            chan_alloc,
        );
    }

    /// Serves a page response; see [`after_page_response`] and [`page_response_msgs`].
    pub fn on_page_response(&mut self, queue: &mut MessageQueue, addr: TetraAddress, nsapi: u8)
        requires
            old(self)@.wf(),
        ensures
            final(self)@ == after_page_response(old(self)@, PdpKey { ssi: addr.ssi, nsapi }),
            final(self)@.wf(),
            final(queue)@ == old(queue)@ + page_response_msgs(old(self)@, addr, nsapi),
    {
        let ghost st = self@;
        let ghost q = queue@;
        assert(q + Seq::<SapMsgView>::empty() =~= q);
        let key: PdpKey = PdpKey::new(addr, nsapi);
        let i: usize = match self.find_context(&key) {
            Some(i) => i,
            None => {
                return;
            },
        };
        if self.contexts[i].state != PdpState::WaitForPageResponse {
            return;
        }
        let ghost c = st.contexts[i as int];
        self.touch_at(i);
        let ghost st1 = self@;
        assert(st1.contexts.len() == self.contexts@.len());
        assert(self.contexts@[i as int]@ == st1.contexts[i as int]);
        let link_id: u32 = self.contexts[i].link_id;
        let endpoint_id: u32 = self.contexts[i].endpoint_id;
        let mut todo: Vec<Vec<u8>> = Vec::new();
        std::mem::swap(&mut todo, &mut self.contexts[i].pending_downlink);
        proof {
            let cv = CtxView { pending: Seq::empty(), ..st1.contexts[i as int] };
            lemma_with_ctx_wf(st1, i as int, cv);
            assert(packet_views(self.contexts@[i as int].pending_downlink@) =~= Seq::<
                Seq<u8>,
            >::empty());
            assert(self@.contexts =~= st1.contexts.update(i as int, cv));
            assert(self@ =~= after_page_response(st, key));
        }
        let ghost all = page_response_msgs(st, addr, nsapi);
        let ghost total = c.pending.len();
        let ghost mut k: int = 0;
        assert(packet_views(todo@) =~= c.pending.skip(0));
        assert(q =~= q + all.take(0));
        while todo.len() > 0
            invariant
                0 <= k <= total,
                total == c.pending.len(),
                all.len() == total,
                forall|j: int|
                    0 <= j < total ==> #[trigger] all[j] == unitdata_msg(addr, c, c.pending[j]),
                packet_views(todo@) == c.pending.skip(k),
                queue@ == q + all.take(k),
                link_id == c.link_id,
                endpoint_id == c.endpoint_id,
                nsapi == c.key.nsapi,
            decreases todo@.len(),
        {
            let ghost rest = packet_views(todo@);
            proof {
                assert(rest.len() == todo@.len());
                assert(rest[0] == c.pending.skip(k)[0]);
                assert(todo@[0]@ == c.pending[k]);
            }
            let payload: Vec<u8> = todo.remove(0);
            assert(packet_views(todo@) =~= c.pending.skip(k + 1)) by {
                assert(packet_views(todo@) =~= rest.remove(0));
            }
            send_downlink(
                queue,
                addr,
                DownlinkRoute { link_id, endpoint_id, al_link_number: None },
                SnDownlink::Unitdata { nsapi, pcomp: 0, dcomp: 0, payload },
                Layer2Service::Unacknowledged,
                true,
                None,
            );
            proof {
                assert(queue@ =~= q + all.take(k + 1));
                k = k + 1;
            }
        }
        assert(packet_views(todo@).len() == 0);
        assert(all.take(k) =~= all);
    }

    /// Serves an end of data; see [`after_end_of_data`].
    pub fn on_end_of_data(&mut self, addr: TetraAddress)
        requires
            old(self)@.wf(),
        ensures
            final(self)@ == after_end_of_data(old(self)@, addr.ssi),
            final(self)@.wf(),
    {
        let ghost st = self@;
        let ghost s = st.contexts;
        let ghost done = after_end_of_data(st, addr.ssi).contexts;
        let now: TdmaTime = self.dltime;
        let deadline: TdmaTime = now.add_timeslots(STANDBY_TIMER_SLOTS);
        let n: usize = self.contexts.len();
        let mut i: usize = 0;
        assert(done.take(0) + s.skip(0) =~= s);
        while i < n
            invariant
                i <= n,
                n == s.len(),
                self@.wf(),
                done == after_end_of_data(st, addr.ssi).contexts,
                s == st.contexts,
                deadline == later(st.dltime, STANDBY_TIMER_SLOTS),
                self.contexts@.len() == n,
                self@ == (SndcpView { contexts: done.take(i as int) + s.skip(i as int), ..st }),
            decreases n - i,
        {
            let ghost cur = self@;
            proof {
                assert(cur.contexts[i as int] == s[i as int]);
                assert(self.contexts@[i as int]@ == s[i as int]);
            }
            if self.contexts[i].key.ssi == addr.ssi && self.contexts[i].state == PdpState::Ready {
                let c: &mut PdpContext = &mut self.contexts[i];
                c.state = PdpState::Standby;
                c.standby_deadline = Some(deadline);
                c.ready_deadline = None;
            }
            proof {
                assert(self.contexts@[i as int]@ =~= done[i as int]);
                lemma_with_ctx_wf(cur, i as int, done[i as int]);
                assert(self@.contexts =~= cur.contexts.update(i as int, done[i as int]));
                assert(self@ =~= cur.with_ctx(i as int, done[i as int]));
                assert(self@.contexts =~= done.take(i + 1) + s.skip(i + 1));
            }
            i = i + 1;
        }
        assert(self@.contexts =~= done);
    }

    /// Serves a reconnection; see [`after_reconnect`].
    pub fn on_reconnect(&mut self, addr: TetraAddress, target: Option<u8>)
        requires
            old(self)@.wf(),
        ensures
            final(self)@ == after_reconnect(old(self)@, addr.ssi, target),
            final(self)@.wf(),
    {
        let ghost st = self@;
        let ghost s = st.contexts;
        let ghost done = after_reconnect(st, addr.ssi, target).contexts;
        let now: TdmaTime = self.dltime;
        let deadline: TdmaTime = now.add_timeslots(READY_TIMER_SLOTS);
        let n: usize = self.contexts.len();
        let mut i: usize = 0;
        assert(done.take(0) + s.skip(0) =~= s);
        while i < n
            invariant
                i <= n,
                n == s.len(),
                self@.wf(),
                done == after_reconnect(st, addr.ssi, target).contexts,
                s == st.contexts,
                deadline == later(st.dltime, READY_TIMER_SLOTS),
                self.contexts@.len() == n,
                self@ == (SndcpView { contexts: done.take(i as int) + s.skip(i as int), ..st }),
            decreases n - i,
        {
            let ghost cur = self@;
            proof {
                assert(cur.contexts[i as int] == s[i as int]);
                assert(self.contexts@[i as int]@ == s[i as int]);
            }
            let named: bool = match target {
                Some(nsapi) => self.contexts[i].key.nsapi == nsapi,
                None => true,
            };
            if self.contexts[i].key.ssi == addr.ssi && named && self.contexts[i].state
                == PdpState::Standby {
                let c: &mut PdpContext = &mut self.contexts[i];
                c.state = PdpState::Ready;
                c.ready_deadline = Some(deadline);
                c.standby_deadline = None;
            }
            proof {
                assert(self.contexts@[i as int]@ =~= done[i as int]);
                lemma_with_ctx_wf(cur, i as int, done[i as int]);
                assert(self@.contexts =~= cur.contexts.update(i as int, done[i as int]));
                assert(self@ =~= cur.with_ctx(i as int, done[i as int]));
                assert(self@.contexts =~= done.take(i + 1) + s.skip(i + 1));
            }
            i = i + 1;
        }
        assert(self@.contexts =~= done);
    }

    /// The place of the context that an address leads to.
    fn find_by_ip(&self, ip: Ipv4Addr) -> (r: Option<usize>)
        requires
            self@.wf(),
        ensures
            match r {
                Some(i) => ctx_of_ip(self@, ip) == Some(i as int) && i < self.contexts@.len()
                    && self.contexts@[i as int]@ == self@.contexts[i as int],
                None => ctx_of_ip(self@, ip) is None,
            },
    {
        broadcast use vstd::std_specs::hash::group_hash_axioms;

        match self.ipv4_to_key.get(&ip.bits) {
            Some(key) => self.find_context(key),
            None => None,
        }
    }

    /// Takes a packet for a terminal; see [`after_downlink`] and [`downlink_msgs`].
    pub fn feed_downlink_ip(&mut self, queue: &mut MessageQueue, downlink: GatewayDownlink)
        requires
            old(self)@.wf(),
        ensures
            final(self)@ == after_downlink(
                old(self)@,
                downlink.dest_ipv4,
                downlink.payload@,
            ),
            final(self)@.wf(),
            final(queue)@ == old(queue)@ + downlink_msgs(
                old(self)@,
                downlink.dest_ipv4,
                downlink.payload@,
            ),
    {
        let ghost st = self@;
        let ghost q = queue@;
        let ghost ip = downlink.dest_ipv4;
        let ghost payload = downlink.payload@;
        assert(q + Seq::<SapMsgView>::empty() =~= q);
        let i: usize = match self.find_by_ip(downlink.dest_ipv4) {
            Some(i) => i,
            None => {
                return;
            },
        };
        let ghost c0 = st.contexts[i as int];
        let now: TdmaTime = self.dltime;
        let key: PdpKey = self.contexts[i].key;
        let main_address: TetraAddress = TetraAddress::issi(key.ssi);
        let route = DownlinkRoute {
            link_id: self.contexts[i].link_id,
            endpoint_id: self.contexts[i].endpoint_id,
            al_link_number: None,
        };
        match self.contexts[i].state {
            PdpState::Ready => {
                let deadline: TdmaTime = now.add_timeslots(READY_TIMER_SLOTS);
                let c: &mut PdpContext = &mut self.contexts[i];
                c.ready_deadline = Some(deadline);
                c.last_activity = now;
                proof {
                    let cv = CtxView {
                        ready_deadline: Some(later(st.dltime, READY_TIMER_SLOTS)),
                        last_activity: st.dltime,
                        ..c0
                    };
                    lemma_with_ctx_wf(st, i as int, cv);
                    assert(self@.contexts =~= st.contexts.update(i as int, cv));
                }
                send_downlink(
                    queue,
                    main_address,
                    route,
                    SnDownlink::Unitdata {
                        nsapi: key.nsapi,
                        pcomp: 0,
                        dcomp: 0,
                        payload: downlink.payload,
                    },
                    Layer2Service::Unacknowledged,
                    true,
                    None,
                );
                assert(queue@ =~= q + downlink_msgs(st, ip, payload));
            },
            PdpState::Standby => {
                let c: &mut PdpContext = &mut self.contexts[i];
                c.pending_downlink.push(downlink.payload);
                c.state = PdpState::WaitForPageResponse;
                proof {
                    let cv = CtxView {
                        pending: c0.pending.push(payload),
                        state: PdpState::WaitForPageResponse,
                        ..c0
                    };
                    lemma_with_ctx_wf(st, i as int, cv);
                    assert(packet_views(c.pending_downlink@) =~= cv.pending);
                    assert(c@ =~= cv);
                    assert(self@.contexts =~= st.contexts.update(i as int, cv));
                }
                send_downlink(
                    queue,
                    main_address,
                    route,
                    SnDownlink::PageRequest { nsapi: key.nsapi },
                    Layer2Service::Acknowledged,
                    false,
                    None,
                );
                assert(queue@ =~= q + downlink_msgs(st, ip, payload));
            },
            PdpState::WaitForPageResponse => {
                let c: &mut PdpContext = &mut self.contexts[i];
                c.pending_downlink.push(downlink.payload);
                proof {
                    let cv = CtxView { pending: c0.pending.push(payload), ..c0 };
                    lemma_with_ctx_wf(st, i as int, cv);
                    assert(packet_views(c.pending_downlink@) =~= cv.pending);
                    assert(c@ =~= cv);
                    assert(self@.contexts =~= st.contexts.update(i as int, cv));
                }
            },
            _ => {},
        }
    }

    /// Takes a packet for a terminal that is to be confirmed; see
    /// [`after_downlink_acknowledged`] and [`downlink_acknowledged_msgs`].
    pub fn feed_downlink_ip_acknowledged(
        &mut self,
        queue: &mut MessageQueue,
        downlink: GatewayDownlink,
    )
        requires
            old(self)@.wf(),
        ensures
            final(self)@ == after_downlink_acknowledged(old(self)@, downlink.dest_ipv4),
            final(self)@.wf(),
            final(queue)@ == old(queue)@ + downlink_acknowledged_msgs(
                old(self)@,
                downlink.dest_ipv4,
                downlink.payload@,
            ),
    {
        let ghost st = self@;
        let ghost q = queue@;
        let ghost ip = downlink.dest_ipv4;
        let ghost payload = downlink.payload@;
        assert(q + Seq::<SapMsgView>::empty() =~= q);
        let i: usize = match self.find_by_ip(downlink.dest_ipv4) {
            Some(i) => i,
            None => {
                return;
            },
        };
        if self.contexts[i].state != PdpState::Ready {
            return;
        }
        let now: TdmaTime = self.dltime;
        let deadline: TdmaTime = now.add_timeslots(READY_TIMER_SLOTS);
        let key: PdpKey = self.contexts[i].key;
        let route: DownlinkRoute = match self.contexts[i].al_link {
            Some(a) => DownlinkRoute {
                link_id: a.link_id,
                endpoint_id: a.endpoint_id,
                al_link_number: Some(a.al_link_number),
            },
            None => DownlinkRoute {
                link_id: self.contexts[i].link_id,
                endpoint_id: self.contexts[i].endpoint_id,
                al_link_number: None,
            },
        };
        let c: &mut PdpContext = &mut self.contexts[i];
        c.ready_deadline = Some(deadline);
        c.last_activity = now;
        proof {
            let cv = CtxView {
                ready_deadline: Some(later(st.dltime, READY_TIMER_SLOTS)),
                last_activity: st.dltime,
                ..st.contexts[i as int]
            };
            lemma_with_ctx_wf(st, i as int, cv);
            assert(self@.contexts =~= st.contexts.update(i as int, cv));
        }
        send_downlink(
            queue,
            TetraAddress::issi(key.ssi),
            route,
            SnDownlink::Data { nsapi: key.nsapi, pcomp: 0, dcomp: 0, n_pdu: downlink.payload },
            Layer2Service::Acknowledged,
            true,
            None,
        );
        assert(queue@ =~= q + downlink_acknowledged_msgs(st, ip, payload));
    }

    /// Takes a packet from the gateway: to a ready context it goes as SN-DATA, to be
    /// confirmed; in every other state it is treated as in [`Sndcp::feed_downlink_ip`].
    pub fn feed_gateway_downlink(&mut self, queue: &mut MessageQueue, downlink: GatewayDownlink)
        requires
            old(self)@.wf(),
        ensures
            final(self)@ == after_gateway_downlink(
                old(self)@,
                downlink.dest_ipv4,
                downlink.payload@,
            ),
            final(self)@.wf(),
            final(queue)@ == old(queue)@ + gateway_downlink_msgs(
                old(self)@,
                downlink.dest_ipv4,
                downlink.payload@,
            ),
    {
        let ready: bool = match self.find_by_ip(downlink.dest_ipv4) {
            Some(i) => self.contexts[i].state == PdpState::Ready,
            None => false,
        };
        if ready {
            self.feed_downlink_ip_acknowledged(queue, downlink);
        } else {
            self.feed_downlink_ip(queue, downlink);
        }
    }

    /// Hands the packets of the terminals over to the gateway, oldest first.
    pub fn take_uplink(&mut self) -> (r: Vec<GatewayUplink>)
        requires
            old(self)@.wf(),
        ensures
            uplink_views(r@) == old(self)@.uplink,
            final(self)@ == (SndcpView { uplink: Seq::empty(), ..old(self)@ }),
            final(self)@.wf(),
    {
        proof {
            reveal(SndcpView::wf);
        }
        let mut r: Vec<GatewayUplink> = Vec::new();
        std::mem::swap(&mut r, &mut self.uplink_ip_queue);
        assert(self@.uplink =~= Seq::<UplinkView>::empty());
        r
    }

    /// Looks at the timers of every context; see [`after_timers`].
    pub fn run_timers(&mut self)
        requires
            old(self)@.wf(),
        ensures
            final(self)@ == after_timers(old(self)@),
            final(self)@.wf(),
    {
        let ghost st = self@;
        let now: TdmaTime = self.dltime;
        let mut todo: Vec<PdpContext> = Vec::new();
        std::mem::swap(&mut todo, &mut self.contexts);
        let ghost total = todo@.len();
        let ghost mut n: nat = 0;
        proof {
            assert(ctx_views(todo@) =~= st.contexts.skip(0));
            assert(self@ =~= timer_pass(st, 0));
        }
        while todo.len() > 0
            invariant
                st.wf(),
                n <= total,
                total == st.contexts.len(),
                now == st.dltime,
                ctx_views(todo@) == st.contexts.skip(n as int),
                self@ == timer_pass(st, n),
                self.config == st.config,
            decreases todo@.len(),
        {
            let ghost views = ctx_views(todo@);
            let ghost c = st.contexts[n as int];
            let ghost before = self@;
            proof {
                assert(views.len() == todo@.len());
                assert(views[0] == st.contexts.skip(n as int)[0]);
                assert(todo@[0]@ == c);
            }
            let mut ctx: PdpContext = todo.remove(0);
            assert(ctx_views(todo@) =~= st.contexts.skip(n as int + 1)) by {
                assert(ctx_views(todo@) =~= views.remove(0));
            }
            let expired: bool = match ctx.state {
                PdpState::Standby => match ctx.standby_deadline {
                    Some(d) => timer_expired(d, now),
                    None => false,
                },
                PdpState::WaitForAccept => match ctx.resp_wait_deadline {
                    Some(d) => timer_expired(d, now),
                    None => false,
                },
                _ => false,
            };
            if expired {
                broadcast use vstd::std_specs::hash::group_hash_axioms;

                if !leased(&self.config.static_lease, ctx.ipv4.bits) {
                    self.ipv4_pool.free(ctx.ipv4);
                }
                self.ipv4_to_key.remove(&ctx.ipv4.bits);
            } else {
                if ctx.state == PdpState::Ready {
                    if let Some(d) = ctx.ready_deadline {
                        if timer_expired(d, now) {
                            ctx.state = PdpState::Standby;
                            ctx.standby_deadline = Some(now.add_timeslots(STANDBY_TIMER_SLOTS));
                            ctx.ready_deadline = None;
                        }
                    }
                }
                assert(ctx@ =~= ctx_aged(c, st.dltime));
                self.contexts.push(ctx);
                assert(self@.contexts =~= before.contexts.push(ctx_aged(c, st.dltime)));
            }
            proof {
                n = n + 1;
                assert(self@ =~= timer_pass(st, n));
            }
        }
        proof {
            assert(ctx_views(todo@).len() == 0);
            assert(n == total);
            lemma_after_timers_wf(st);
        }
    }

    /// Serves an uplink SN-PDU that asks for no reply of its own.
    fn on_unanswered_pdu(&mut self, queue: &mut MessageQueue, ind: LtpdMleUnitdataInd)
        requires
            old(self)@.wf(),
            !(ind@.pdu is ActivatePdpContextDemand),
            !(ind@.pdu is DeactivatePdpContextDemand),
            !(ind@.pdu is DataTransmitRequest),
        ensures
            final(self)@ == after_uplink(old(self)@, ind@),
            final(self)@.wf(),
            final(queue)@ == old(queue)@ + uplink_msgs(old(self)@, ind@),
    {
        let ghost q = queue@;
        assert(q + Seq::<SapMsgView>::empty() =~= q);
        let addr: TetraAddress = ind.received_tetra_address;
        let from = UplinkOrigin {
            address: addr,
            link_id: ind.link_id,
            endpoint_id: ind.endpoint_id,
            al_link_number: ind.al_link_number,
        };
        match ind.pdu {
            SnUplink::DeactivatePdpContextAccept { nsapi } => {
                self.on_deactivate_accept(addr, nsapi);
            },
            SnUplink::Unitdata { nsapi, payload } => {
                self.on_uplink_unitdata(from, nsapi, payload);
            },
            SnUplink::Data { nsapi, n_pdu } => {
                self.on_uplink_data(from, nsapi, n_pdu);
            },
            SnUplink::PageResponse { nsapi } => {
                self.on_page_response(queue, addr, nsapi);
            },
            SnUplink::EndOfData { immediate_service_change: _ } => {
                self.on_end_of_data(addr);
            },
            SnUplink::Reconnect { target } => {
                self.on_reconnect(addr, target);
            },
            _ => {},
        }
    }

    /// Serves an uplink SN-PDU; see [`after_uplink`] and [`uplink_msgs`].
    #[verifier::rlimit(50)]
    pub fn on_uplink_pdu(&mut self, queue: &mut MessageQueue, ind: LtpdMleUnitdataInd)
        requires
            old(self)@.wf(),
        ensures
            final(self)@ == after_uplink(old(self)@, ind@),
            final(self)@.wf(),
            final(queue)@ == old(queue)@ + uplink_msgs(old(self)@, ind@),
    {
        let ghost st = self@;
        let ghost q = queue@;
        let ghost iv = ind@;
        assert(q + Seq::<SapMsgView>::empty() =~= q);
        match &ind.pdu {
            SnUplink::ActivatePdpContextDemand(d) => {
                self.on_activate_demand(queue, &ind, d);
                assert(queue@ =~= q + uplink_msgs(st, iv));
                return;
            },
            SnUplink::DeactivatePdpContextDemand { nsapi } => {
                self.on_deactivate_demand(queue, &ind, *nsapi);
                return;
            },
            SnUplink::DataTransmitRequest { nsapi } => {
                self.on_data_transmit_request(queue, &ind, *nsapi);
                assert(queue@ =~= q + uplink_msgs(st, iv));
                return;
            },
            _ => {},
        }
        self.on_unanswered_pdu(queue, ind);
    }

    /// Serves a primitive: an uplink SN-PDU; anything else is ignored.
    pub fn rx_prim(&mut self, queue: &mut MessageQueue, message: SapMsg)
        requires
            old(self)@.wf(),
        ensures
            final(self)@ == after_message(old(self)@, message@),
            final(self)@.wf(),
            final(queue)@ == old(queue)@ + message_msgs(old(self)@, message@),
    {
        let ghost q = queue@;
        assert(q + Seq::<SapMsgView>::empty() =~= q);
        match message.msg {
            SapMsgInner::LtpdMleUnitdataInd(ind) => {
                self.on_uplink_pdu(queue, ind);
            },
            _ => {},
        }
    }

    /// Begins a tick.
    pub fn tick_start(&mut self, ts: TdmaTime)
        requires
            old(self)@.wf(),
        ensures
            final(self)@ == (SndcpView { dltime: ts, ..old(self)@ }),
            final(self)@.wf(),
    {
        proof {
            reveal(SndcpView::wf);
        }
        self.dltime = ts;
    }

    /// Ends a tick: the timers are looked at. Nothing is sent.
    pub fn tick_end(&mut self) -> (r: bool)
        requires
            old(self)@.wf(),
        ensures
            final(self)@ == after_timers(old(self)@),
            final(self)@.wf(),
            !r,
    {
        self.run_timers();
        false
    }
}

} // verus!
