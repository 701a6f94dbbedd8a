//! What holds of the contexts across several calls.

use crate::ipv4::Ipv4Addr;
use crate::saps::{LtpdIndView, SapInnerView, SapMsgView, TetraAddress};
use crate::sndcp::entity::{
    activate_reply, activation, after_activate, after_data, after_downlink, after_end_of_data,
    after_page_response, after_reconnect, after_release, after_timers, after_uplink, ctx_aged,
    ctx_expired, ctx_of_ip, ctx_pos, ctxs_distinct, downlink_acknowledged_msgs, downlink_msgs,
    find_ctx, free_lease, has_ctx, in_use, lease_first, lease_usable, lemma_after_timers_wf,
    lemma_ctx_pos, lemma_free_lease, lemma_release_wf, lemma_take_on_wf, lemma_timer_pass,
    lemma_with_ctx_wf, new_ctx, page_response_msgs, reply_msg, timer_pass, unitdata_msg,
    Activation, CtxView, PdpKey, PdpState, SndcpView, UplinkOrigin,
};
use crate::sndcp::pdus::{DemandView, SnDownlinkView, SnUplinkView};
use crate::sndcp::pool::{is_grantable, is_leased, pool_universe};
use vstd::prelude::*;

verus! {

/// The key of a terminal's context.
pub open spec fn key_of(ind: LtpdIndView, nsapi: u8) -> PdpKey {
    PdpKey { ssi: ind.received_tetra_address.ssi, nsapi }
}

/// No two contexts ever share an address.
pub proof fn law_addresses_distinct(st: SndcpView, i: int, j: int)
    requires
        st.wf(),
        0 <= i < st.contexts.len(),
        0 <= j < st.contexts.len(),
        st.contexts[i].ipv4.bits == st.contexts[j].ipv4.bits,
    ensures
        i == j,
{
    reveal(SndcpView::wf);
    if i < j {
        assert(st.contexts[i].ipv4.bits != st.contexts[j].ipv4.bits);
    }
    if j < i {
        assert(st.contexts[j].ipv4.bits != st.contexts[i].ipv4.bits);
    }
}

/// No address gets lost: one that the pool may hand out is either free or held by a
/// context, and never both.
pub proof fn law_address_free_or_held(st: SndcpView, a: u32)
    requires
        st.wf(),
        pool_universe(st.config).contains(a),
    ensures
        st.pool.contains(a) <==> !in_use(st.contexts, a),
{
    reveal(SndcpView::wf);
}

/// A context holds no address but one that the pool may hand out, or a lease.
pub proof fn law_held_address_is_grantable(st: SndcpView, i: int)
    requires
        st.wf(),
        0 <= i < st.contexts.len(),
    ensures
        is_grantable(st.config, st.contexts[i].ipv4.bits),
{
    reveal(SndcpView::wf);
}

/// Every packet for an address in use finds its context.
pub proof fn law_address_finds_context(st: SndcpView, i: int)
    requires
        st.wf(),
        0 <= i < st.contexts.len(),
    ensures
        ctx_of_ip(st, st.contexts[i].ipv4) == Some(i),
{
    reveal(SndcpView::wf);
    let a = st.contexts[i].ipv4.bits;
    assert(in_use(st.contexts, a));
    assert(st.by_ip.contains_key(a));
    assert(st.by_ip[st.contexts[i].ipv4.bits] == st.contexts[i].key);
    assert(has_ctx(st.contexts, st.contexts[i].key, i));
    lemma_ctx_pos(st.contexts, st.contexts[i].key, i);
}

/// No lease is ever in the pool.
pub proof fn law_lease_never_in_pool(st: SndcpView, a: u32)
    requires
        st.wf(),
        is_leased(st.config.static_lease@, a),
    ensures
        !st.pool.contains(a),
{
    reveal(SndcpView::wf);
}

/// A lease is for its terminal alone: whoever asks for an address and has no lease on it
/// does not get it, neither as a dynamic address nor by naming it.
pub proof fn law_lease_for_its_terminal_alone(st: SndcpView, key: PdpKey, d: DemandView, ip: Ipv4Addr)
    requires
        st.wf(),
        is_leased(st.config.static_lease@, ip.bits),
        activation(st, key, d) matches Activation::Accept(a, _) && a == ip,
    ensures
        exists|i: int|
            0 <= i < st.config.static_lease@.len() && (
            #[trigger] st.config.static_lease@[i]).ipv4 == ip && st.config.static_lease@[i].issi
                == key.ssi,
{
    law_lease_never_in_pool(st, ip.bits);
    lemma_accept_is_free(st, key, d);
    let i = choose|i: int| lease_first(st, key.ssi, i);
    assert(lease_first(st, key.ssi, i));
    assert(st.config.static_lease@[i].ipv4 == ip);
}

/// A terminal that asks for a dynamic address and has a lease that no context uses gets
/// that lease, whatever the pool holds.
pub proof fn law_lease_comes_first(st: SndcpView, key: PdpKey, d: DemandView, i: int)
    requires
        st.wf(),
        find_ctx(st.contexts, key) is None,
        d.atid != 0,
        0 <= i < st.config.static_lease@.len(),
        st.config.static_lease@[i].issi == key.ssi,
        forall|j: int|
            0 <= j < i ==> (#[trigger] st.config.static_lease@[j]).issi != key.ssi,
        !in_use(st.contexts, st.config.static_lease@[i].ipv4.bits),
    ensures
        activation(st, key, d) matches Activation::Accept(ip, _) && ip
            == st.config.static_lease@[i].ipv4,
{
    reveal(SndcpView::wf);
    assert forall|j: int| 0 <= j < i implies !lease_usable(st, key.ssi, j) by {
        assert(st.config.static_lease@[j].issi != key.ssi);
    }
    assert(lease_first(st, key.ssi, i));
    let c = choose|c: int| lease_first(st, key.ssi, c);
    assert(lease_first(st, key.ssi, c));
    assert(c == i);
}

/// A dynamic address for a terminal without a lease to use is the lowest free one.
pub proof fn law_dynamic_address_is_lowest(st: SndcpView, key: PdpKey, d: DemandView)
    requires
        st.wf(),
        find_ctx(st.contexts, key) is None,
        d.atid != 0,
        free_lease(st, key.ssi) is None,
        st.pool != Set::<u32>::empty(),
    ensures
        activation(st, key, d) matches Activation::Accept(ip, _) && st.pool.contains(ip.bits)
            && forall|b: u32| #[trigger] st.pool.contains(b) ==> ip.bits <= b,
{
    assert(exists|a: u32| st.pool.contains(a)) by {
        if forall|a: u32| !st.pool.contains(a) {
            assert(st.pool =~= Set::<u32>::empty());
        }
    }
    let a = choose|a: u32| st.pool.contains(a);
    lemma_least(st.pool, a);
}

/// A set with an element has a least one.
proof fn lemma_least(pool: Set<u32>, a: u32)
    requires
        pool.contains(a),
    ensures
        exists|m: u32|
            pool.contains(m) && forall|b: u32| #[trigger] pool.contains(b) ==> m <= b,
    decreases a,
{
    if exists|b: u32| pool.contains(b) && b < a {
        let b = choose|b: u32| pool.contains(b) && b < a;
        lemma_least(pool, b);
    } else {
        assert(pool.contains(a) && forall|b: u32| #[trigger] pool.contains(b) ==> a <= b);
    }
}

/// Two contexts never get the same address: an address that is handed out is in use by
/// nobody before, and afterwards it is in use and no longer free.
pub proof fn law_granted_address_is_taken(st: SndcpView, ind: LtpdIndView, d: DemandView, ip: Ipv4Addr)
    requires
        st.wf(),
        activation(st, key_of(ind, d.nsapi), d) matches Activation::Accept(a, _) && a == ip,
    ensures
        !in_use(st.contexts, ip.bits),
        in_use(after_activate(st, ind, d).contexts, ip.bits),
        !after_activate(st, ind, d).pool.contains(ip.bits),
{
    let key = key_of(ind, d.nsapi);
    lemma_accept_is_free(st, key, d);
    if let Activation::Accept(a, tia) = activation(st, key, d) {
        let t = after_activate(st, ind, d).contexts;
        assert(t[st.contexts.len() as int].ipv4 == ip);
    }
}

/// A refused demand leaves everything as it was.
pub proof fn law_refused_demand_changes_nothing(st: SndcpView, ind: LtpdIndView, d: DemandView)
    requires
        activation(st, key_of(ind, d.nsapi), d) is Refuse,
    ensures
        after_activate(st, ind, d) == st,
{
}

proof fn lemma_taken_on(st: SndcpView, c: CtxView)
    requires
        st.wf(),
        ctx_pos(st.contexts, c.key) is None,
        is_grantable(st.config, c.ipv4.bits),
        !in_use(st.contexts, c.ipv4.bits),
    ensures
        st.take_on(c).wf(),
        ctx_pos(st.take_on(c).contexts, c.key) == Some(st.contexts.len() as int),
        find_ctx(st.take_on(c).contexts, c.key) == Some(c),
{
    lemma_take_on_wf(st, c);
    let t = st.take_on(c);
    assert(ctxs_distinct(t.contexts)) by {
        reveal(SndcpView::wf);
    }
    assert(has_ctx(t.contexts, c.key, st.contexts.len() as int));
    lemma_ctx_pos(t.contexts, c.key, st.contexts.len() as int);
}

/// An accepted address is in use by nobody before the demand. It is in the pool, or a lease
/// of the terminal.
proof fn lemma_accept_is_free(st: SndcpView, key: PdpKey, d: DemandView)
    requires
        st.wf(),
        activation(st, key, d) is Accept,
    ensures
        ctx_pos(st.contexts, key) is None,
        activation(st, key, d) matches Activation::Accept(ip, _) && is_grantable(
            st.config,
            ip.bits,
        ) && !in_use(st.contexts, ip.bits) && (if d.atid != 0 && free_lease(st, key.ssi)
            is Some {
            ip == free_lease(st, key.ssi)->0 && is_leased(st.config.static_lease@, ip.bits)
        } else {
            st.pool.contains(ip.bits) && !is_leased(st.config.static_lease@, ip.bits)
        }),
{
    if d.atid != 0 {
        if free_lease(st, key.ssi) is Some {
            lemma_free_lease(st, key.ssi);
        } else {
            assert(exists|a: u32| st.pool.contains(a)) by {
                if forall|a: u32| !st.pool.contains(a) {
                    assert(st.pool =~= Set::<u32>::empty());
                }
            }
            let a = choose|a: u32| st.pool.contains(a);
            lemma_least(st.pool, a);
        }
    }
    reveal(SndcpView::wf);
}

/// A demand that is repeated, because the accept got lost, is answered with the same
/// accept. No second context is made and no second address taken.
#[verifier::rlimit(60)]
pub proof fn law_repeated_demand_same_accept(
    st: SndcpView,
    ind: LtpdIndView,
    d: DemandView,
    ind2: LtpdIndView,
    d2: DemandView,
)
    requires
        st.wf(),
        activation(st, key_of(ind, d.nsapi), d) is Accept,
        key_of(ind2, d2.nsapi) == key_of(ind, d.nsapi),
    ensures
        ({
            let one = after_activate(st, ind, d);
            let two = after_activate(one, ind2, d2);
            &&& activate_reply(one, ind2, d2) == reply_msg(
                ind2,
                SnDownlinkView::ActivatePdpContextAccept(
                    find_ctx(one.contexts, key_of(ind, d.nsapi))->0.last_accept,
                ),
            )
            &&& activate_reply(st, ind, d) == reply_msg(
                ind,
                SnDownlinkView::ActivatePdpContextAccept(
                    find_ctx(one.contexts, key_of(ind, d.nsapi))->0.last_accept,
                ),
            )
            &&& two.pool == one.pool
            &&& two.by_ip == one.by_ip
            &&& two.contexts.len() == one.contexts.len()
        }),
{
    let key = key_of(ind, d.nsapi);
    lemma_accept_is_free(st, key, d);
    if let Activation::Accept(ip, tia) = activation(st, key, d) {
        let c = new_ctx(st, ind, d, ip, tia);
        lemma_taken_on(st, c);
    }
}

/// Deactivation undoes activation: the contexts, the free addresses and the index are what
/// they were.
#[verifier::rlimit(60)]
pub proof fn law_deactivation_undoes_activation(st: SndcpView, ind: LtpdIndView, d: DemandView)
    requires
        st.wf(),
        activation(st, key_of(ind, d.nsapi), d) is Accept,
    ensures
        after_release(after_activate(st, ind, d), key_of(ind, d.nsapi)) == st,
{
    let key = key_of(ind, d.nsapi);
    lemma_accept_is_free(st, key, d);
    if let Activation::Accept(ip, tia) = activation(st, key, d) {
        let c = new_ctx(st, ind, d, ip, tia);
        lemma_taken_on(st, c);
        let n = st.contexts.len() as int;
        let r = st.take_on(c).release(n);
        assert(r.contexts =~= st.contexts);
        if is_leased(st.config.static_lease@, ip.bits) {
            law_lease_never_in_pool(st, ip.bits);
        }
        assert(r.pool =~= st.pool);
        assert(!st.by_ip.contains_key(ip.bits)) by {
            reveal(SndcpView::wf);
        }
        assert(r.by_ip =~= st.by_ip);
    }
}

/// After a deactivation the context is gone and nobody has its address: it is back in the
/// pool, or it is a lease and stays out of it.
pub proof fn law_deactivation_frees_address(st: SndcpView, key: PdpKey)
    requires
        st.wf(),
        find_ctx(st.contexts, key) is Some,
    ensures
        find_ctx(after_release(st, key).contexts, key) is None,
        !in_use(after_release(st, key).contexts, find_ctx(st.contexts, key)->0.ipv4.bits),
        after_release(st, key).pool.contains(find_ctx(st.contexts, key)->0.ipv4.bits)
            == !is_leased(
            st.config.static_lease@,
            find_ctx(st.contexts, key)->0.ipv4.bits,
        ),
{
    let i = ctx_pos(st.contexts, key)->0;
    let s = st.contexts;
    assert(has_ctx(s, key, i));
    lemma_release_wf(st, i);
    assert(!in_use(st.release(i).contexts, s[i].ipv4.bits)) by {
        reveal(SndcpView::wf);
        assert(!st.release(i).by_ip.contains_key(s[i].ipv4.bits));
    }
    if is_leased(st.config.static_lease@, s[i].ipv4.bits) {
        law_lease_never_in_pool(st, s[i].ipv4.bits);
    }
    let t = s.remove(i);
    assert forall|k: int| !has_ctx(t, key, k) by {
        reveal(SndcpView::wf);
        if 0 <= k < t.len() {
            let k0 = if k < i {
                k
            } else {
                k + 1
            };
            if k0 < i {
                assert(s[k0].key != s[i].key);
            } else {
                assert(s[i].key != s[k0].key);
            }
        }
    }
}

/// A packet for an address that nobody has is dropped without a trace.
pub proof fn law_unknown_address_dropped(st: SndcpView, ip: Ipv4Addr, payload: Seq<u8>)
    requires
        st.wf(),
        !in_use(st.contexts, ip.bits),
    ensures
        after_downlink(st, ip, payload) == st,
        downlink_msgs(st, ip, payload) == Seq::<SapMsgView>::empty(),
{
    reveal(SndcpView::wf);
    assert(!st.by_ip.contains_key(ip.bits));
}

/// A packet for a ready context is sent at once, and the context stays ready.
pub proof fn law_ready_context_gets_packet(st: SndcpView, i: int, payload: Seq<u8>)
    requires
        st.wf(),
        0 <= i < st.contexts.len(),
        st.contexts[i].state == PdpState::Ready,
    ensures
        ({
            let c = st.contexts[i];
            let msgs = downlink_msgs(st, c.ipv4, payload);
            &&& msgs.len() == 1
            &&& msgs[0].msg matches SapInnerView::LtpdMleUnitdataReq(req) && req.main_address.ssi
                == c.key.ssi && req.pdu == SnDownlinkView::Unitdata {
                nsapi: c.key.nsapi,
                pcomp: 0,
                dcomp: 0,
                payload,
            }
            &&& after_downlink(st, c.ipv4, payload).contexts[i].state == PdpState::Ready
        }),
{
    law_address_finds_context(st, i);
}

/// Once a terminal has sent data over an advanced link, SN-DATA for it goes over that link.
/// Until then it goes over the link of its activation.
pub proof fn law_data_follows_the_terminal(
    st: SndcpView,
    i: int,
    from: UplinkOrigin,
    up: Seq<u8>,
    down: Seq<u8>,
)
    requires
        st.wf(),
        0 <= i < st.contexts.len(),
        from.address.ssi == st.contexts[i].key.ssi,
        st.contexts[i].state == PdpState::Ready,
    ensures
        ({
            let c = st.contexts[i];
            let one = after_data(st, from, c.key.nsapi, up);
            let msgs = downlink_acknowledged_msgs(one, c.ipv4, down);
            &&& msgs.len() == 1
            &&& msgs[0].msg matches SapInnerView::LtpdMleUnitdataReq(req) && (
            match from.al_link_number {
                Some(n) => req.al_link_number == Some(n) && req.link_id == from.link_id
                    && req.endpoint_id == from.endpoint_id,
                None => c.al_link is None ==> req.al_link_number is None && req.link_id
                    == c.link_id && req.endpoint_id == c.endpoint_id,
            })
        }),
{
    let c = st.contexts[i];
    let one = after_data(st, from, c.key.nsapi, up);
    assert(c.key == (PdpKey { ssi: from.address.ssi, nsapi: c.key.nsapi }));
    assert(has_ctx(st.contexts, c.key, i));
    assert(ctxs_distinct(st.contexts)) by {
        reveal(SndcpView::wf);
    }
    lemma_ctx_pos(st.contexts, c.key, i);
    lemma_with_ctx_wf(st, i, one.contexts[i]);
    assert(one.wf()) by {
        reveal(SndcpView::wf);
    }
    law_address_finds_context(one, i);
}

/// Packets for a terminal in standby are kept while it is paged, and go out in their order
/// when it answers. It is paged once.
pub proof fn law_paged_packets_in_order(st: SndcpView, i: int, p: Seq<u8>, q: Seq<u8>, addr: TetraAddress)
    requires
        st.wf(),
        0 <= i < st.contexts.len(),
        st.contexts[i].state == PdpState::Standby,
        st.contexts[i].pending.len() == 0,
        addr.ssi == st.contexts[i].key.ssi,
    ensures
        ({
            let c = st.contexts[i];
            let one = after_downlink(st, c.ipv4, p);
            let two = after_downlink(one, c.ipv4, q);
            let three = after_page_response(two, c.key);
            &&& downlink_msgs(st, c.ipv4, p).len() == 1
            &&& downlink_msgs(one, c.ipv4, q).len() == 0
            &&& page_response_msgs(two, addr, c.key.nsapi) == seq![
                unitdata_msg(addr, two.contexts[i], p),
                unitdata_msg(addr, two.contexts[i], q),
            ]
            &&& three.contexts[i].state == PdpState::Ready
            &&& three.contexts[i].pending == Seq::<Seq<u8>>::empty()
        }),
{
    let c = st.contexts[i];
    law_address_finds_context(st, i);
    let one = after_downlink(st, c.ipv4, p);
    lemma_with_ctx_wf(st, i, one.contexts[i]);
    assert(one == st.with_ctx(i, one.contexts[i]));
    law_address_finds_context(one, i);
    let two = after_downlink(one, c.ipv4, q);
    lemma_with_ctx_wf(one, i, two.contexts[i]);
    assert(two == one.with_ctx(i, two.contexts[i]));
    assert(has_ctx(two.contexts, c.key, i));
    assert(ctxs_distinct(two.contexts)) by {
        reveal(SndcpView::wf);
    }
    lemma_ctx_pos(two.contexts, c.key, i);
    let msgs = page_response_msgs(two, addr, c.key.nsapi);
    assert(two.contexts[i].pending == c.pending.push(p).push(q));
    assert(c.key == (PdpKey { ssi: addr.ssi, nsapi: c.key.nsapi }));
    assert(msgs =~= seq![
        unitdata_msg(addr, two.contexts[i], p),
        unitdata_msg(addr, two.contexts[i], q),
    ]);
}

/// A reconnection without a target calls back every context that an end of data put into
/// standby.
pub proof fn law_reconnect_undoes_end_of_data(st: SndcpView, ssi: u32, i: int)
    requires
        0 <= i < st.contexts.len(),
        st.contexts[i].key.ssi == ssi,
        st.contexts[i].state == PdpState::Ready,
    ensures
        after_end_of_data(st, ssi).contexts[i].state == PdpState::Standby,
        after_reconnect(after_end_of_data(st, ssi), ssi, None).contexts[i].state
            == PdpState::Ready,
        after_reconnect(after_end_of_data(st, ssi), ssi, None).contexts[i].ipv4
            == st.contexts[i].ipv4,
{
}

proof fn lemma_pass_keeps(st: SndcpView, n: nat, i: int)
    requires
        st.wf(),
        0 <= i < n <= st.contexts.len(),
        !ctx_expired(st.contexts[i], st.dltime),
    ensures
        exists|k: int|
            0 <= k < timer_pass(st, n).contexts.len() && #[trigger] timer_pass(st, n).contexts[k]
                == ctx_aged(st.contexts[i], st.dltime),
    decreases n,
{
    let b = timer_pass(st, (n - 1) as nat);
    let p = timer_pass(st, n);
    if i == n - 1 {
        assert(p.contexts[b.contexts.len() as int] == ctx_aged(st.contexts[i], st.dltime));
    } else {
        lemma_pass_keeps(st, (n - 1) as nat, i);
        let k = choose|k: int|
            0 <= k < b.contexts.len() && #[trigger] b.contexts[k] == ctx_aged(
                st.contexts[i],
                st.dltime,
            );
        assert(p.contexts[k] == b.contexts[k]);
    }
}

proof fn lemma_pass_frees(st: SndcpView, n: nat, i: int)
    requires
        0 <= i < n <= st.contexts.len(),
        ctx_expired(st.contexts[i], st.dltime),
    ensures
        !is_leased(st.config.static_lease@, st.contexts[i].ipv4.bits) ==> timer_pass(
            st,
            n,
        ).pool.contains(st.contexts[i].ipv4.bits),
        !timer_pass(st, n).by_ip.contains_key(st.contexts[i].ipv4.bits),
    decreases n,
{
    if i < n - 1 {
        lemma_pass_frees(st, (n - 1) as nat, i);
    }
}

/// A context whose time has run out is released: its address is free, back in the pool
/// unless it is a lease, and packets for it find nothing.
pub proof fn law_expired_context_released(st: SndcpView, i: int)
    requires
        st.wf(),
        0 <= i < st.contexts.len(),
        ctx_expired(st.contexts[i], st.dltime),
    ensures
        after_timers(st).pool.contains(st.contexts[i].ipv4.bits) == !is_leased(
            st.config.static_lease@,
            st.contexts[i].ipv4.bits,
        ),
        !in_use(after_timers(st).contexts, st.contexts[i].ipv4.bits),
        ctx_of_ip(after_timers(st), st.contexts[i].ipv4) is None,
{
    lemma_pass_frees(st, st.contexts.len(), i);
    lemma_timer_pass(st, st.contexts.len());
    lemma_after_timers_wf(st);
    let t = after_timers(st);
    if is_leased(st.config.static_lease@, st.contexts[i].ipv4.bits) {
        law_lease_never_in_pool(t, st.contexts[i].ipv4.bits);
    }
    assert(!in_use(t.contexts, st.contexts[i].ipv4.bits)) by {
        reveal(SndcpView::wf);
        assert(!t.by_ip.contains_key(st.contexts[i].ipv4.bits));
    }
}

/// A context whose time has not run out is still there after the timers were looked at,
/// with its address. At most it went from ready to standby.
pub proof fn law_timers_keep_live_contexts(st: SndcpView, i: int)
    requires
        st.wf(),
        0 <= i < st.contexts.len(),
        !ctx_expired(st.contexts[i], st.dltime),
    ensures
        find_ctx(after_timers(st).contexts, st.contexts[i].key) == Some(
            ctx_aged(st.contexts[i], st.dltime),
        ),
{
    lemma_pass_keeps(st, st.contexts.len(), i);
    let t = after_timers(st);
    let k = choose|k: int|
        0 <= k < t.contexts.len() && #[trigger] t.contexts[k] == ctx_aged(
            st.contexts[i],
            st.dltime,
        );
    lemma_after_timers_wf(st);
    assert(ctxs_distinct(t.contexts)) by {
        reveal(SndcpView::wf);
    }
    assert(has_ctx(t.contexts, st.contexts[i].key, k));
    lemma_ctx_pos(t.contexts, st.contexts[i].key, k);
}

/// Changing one context leaves the others to be found as they were.
proof fn lemma_others_kept(s: Seq<CtxView>, t: Seq<CtxView>, key: PdpKey)
    requires
        ctxs_distinct(s),
        ctxs_distinct(t),
        forall|k: int|
            0 <= k < s.len() && (#[trigger] s[k]).key == key ==> exists|j: int|
                0 <= j < t.len() && #[trigger] t[j] == s[k],
        forall|j: int|
            0 <= j < t.len() && (#[trigger] t[j]).key == key ==> exists|k: int|
                0 <= k < s.len() && #[trigger] s[k] == t[j],
    ensures
        find_ctx(s, key) == find_ctx(t, key),
{
    if exists|k: int| has_ctx(s, key, k) {
        let k = choose|k: int| has_ctx(s, key, k);
        lemma_ctx_pos(s, key, k);
        let j = choose|j: int| 0 <= j < t.len() && #[trigger] t[j] == s[k];
        assert(has_ctx(t, key, j));
        lemma_ctx_pos(t, key, j);
    } else {
        if exists|j: int| has_ctx(t, key, j) {
            let j = choose|j: int| has_ctx(t, key, j);
            let k = choose|k: int| 0 <= k < s.len() && #[trigger] s[k] == t[j];
            assert(has_ctx(s, key, k));
        }
    }
}

/// One context changed other than in key and address, the rest as before.
proof fn lemma_update_others(st: SndcpView, i: int, c: CtxView, key: PdpKey)
    requires
        st.wf(),
        0 <= i < st.contexts.len(),
        c.key == st.contexts[i].key,
        c.key != key,
    ensures
        find_ctx(st.contexts.update(i, c), key) == find_ctx(st.contexts, key),
{
    let s = st.contexts;
    let t = s.update(i, c);
    if exists|k: int| has_ctx(s, key, k) {
        let k = choose|k: int| has_ctx(s, key, k);
        assert(has_ctx(t, key, k));
        let k2 = choose|k: int| has_ctx(t, key, k);
        assert(has_ctx(t, key, k2));
        assert(has_ctx(s, key, k2));
        assert(ctxs_distinct(s)) by {
            reveal(SndcpView::wf);
        }
        lemma_ctx_pos(s, key, k2);
    } else {
        if exists|k: int| has_ctx(t, key, k) {
            let k = choose|k: int| has_ctx(t, key, k);
            assert(has_ctx(s, key, k));
        }
    }
}

/// The contexts are changed place by place, and those with the key not at all.
proof fn lemma_pointwise_others(s: Seq<CtxView>, t: Seq<CtxView>, key: PdpKey)
    requires
        ctxs_distinct(s),
        s.len() == t.len(),
        forall|k: int| 0 <= k < s.len() ==> (#[trigger] t[k]).key == s[k].key,
        forall|k: int| 0 <= k < s.len() && s[k].key == key ==> #[trigger] t[k] == s[k],
    ensures
        find_ctx(t, key) == find_ctx(s, key),
{
    if exists|k: int| has_ctx(s, key, k) {
        let k = choose|k: int| has_ctx(s, key, k);
        assert(t[k].key == s[k].key);
        assert(has_ctx(t, key, k));
        let k2 = choose|k: int| has_ctx(t, key, k);
        assert(has_ctx(t, key, k2));
        assert(t[k2].key == s[k2].key);
        assert(has_ctx(s, key, k2));
        lemma_ctx_pos(s, key, k2);
    } else {
        if exists|k: int| has_ctx(t, key, k) {
            let k = choose|k: int| has_ctx(t, key, k);
            assert(t[k].key == s[k].key);
            assert(has_ctx(s, key, k));
        }
    }
}

/// What one terminal sends never touches the contexts of another.
pub proof fn law_terminals_isolated(st: SndcpView, ind: LtpdIndView, key: PdpKey)
    requires
        st.wf(),
        key.ssi != ind.received_tetra_address.ssi,
    ensures
        find_ctx(after_uplink(st, ind).contexts, key) == find_ctx(st.contexts, key),
{
    let s = st.contexts;
    let t = after_uplink(st, ind).contexts;
    let addr = ind.received_tetra_address;
    assert(ctxs_distinct(s)) by {
        reveal(SndcpView::wf);
    }
    match ind.pdu {
        SnUplinkView::ActivatePdpContextDemand(d) => {
            let mine = key_of(ind, d.nsapi);
            match activation(st, mine, d) {
                Activation::Resend => {
                    let i = ctx_pos(s, mine)->0;
                    assert(has_ctx(s, mine, i));
                    lemma_update_others(st, i, t[i], key);
                    assert(t =~= s.update(i, t[i]));
                },
                Activation::Refuse(_) => {},
                Activation::Accept(ip, tia) => {
                    lemma_accept_is_free(st, mine, d);
                    let c = new_ctx(st, ind, d, ip, tia);
                    lemma_taken_on(st, c);
                    assert(ctxs_distinct(t)) by {
                        reveal(SndcpView::wf);
                    }
                    assert forall|k: int|
                        0 <= k < s.len() && (#[trigger] s[k]).key == key implies exists|j: int|
                        0 <= j < t.len() && #[trigger] t[j] == s[k] by {
                        assert(t[k] == s[k]);
                    }
                    assert forall|j: int|
                        0 <= j < t.len() && (#[trigger] t[j]).key == key implies exists|k: int|
                        0 <= k < s.len() && #[trigger] s[k] == t[j] by {
                        assert(j < s.len());
                        assert(s[j] == t[j]);
                    }
                    lemma_others_kept(s, t, key);
                },
            }
        },
        SnUplinkView::DeactivatePdpContextDemand { nsapi } => {
            lemma_release_others(st, key_of(ind, nsapi), key);
        },
        SnUplinkView::DeactivatePdpContextAccept { nsapi } => {
            lemma_release_others(st, key_of(ind, nsapi), key);
        },
        SnUplinkView::Unitdata { nsapi, payload } => {
            lemma_own_update(st, t, key_of(ind, nsapi), key);
        },
        SnUplinkView::Data { nsapi, n_pdu } => {
            lemma_own_update(st, t, key_of(ind, nsapi), key);
        },
        SnUplinkView::DataTransmitRequest { nsapi } => {
            lemma_own_update(st, t, key_of(ind, nsapi), key);
        },
        SnUplinkView::PageResponse { nsapi } => {
            lemma_own_update(st, t, key_of(ind, nsapi), key);
        },
        SnUplinkView::EndOfData { immediate_service_change } => {
            lemma_pointwise_others(s, t, key);
        },
        SnUplinkView::Reconnect { target } => {
            lemma_pointwise_others(s, t, key);
        },
        SnUplinkView::Other => {},
        SnUplinkView::Malformed => {},
    }
}

proof fn lemma_release_others(st: SndcpView, mine: PdpKey, key: PdpKey)
    requires
        st.wf(),
        mine != key,
    ensures
        find_ctx(after_release(st, mine).contexts, key) == find_ctx(st.contexts, key),
{
    let s = st.contexts;
    if let Some(i) = ctx_pos(s, mine) {
        assert(has_ctx(s, mine, i));
        lemma_release_wf(st, i);
        let t = st.release(i).contexts;
        assert(ctxs_distinct(s) && ctxs_distinct(t)) by {
            reveal(SndcpView::wf);
        }
        assert forall|k: int| 0 <= k < s.len() && (#[trigger] s[k]).key == key implies exists|
            j: int,
        | 0 <= j < t.len() && #[trigger] t[j] == s[k] by {
            if k < i {
                assert(t[k] == s[k]);
            } else {
                assert(t[k - 1] == s[k]);
            }
        }
        assert forall|j: int| 0 <= j < t.len() && (#[trigger] t[j]).key == key implies exists|
            k: int,
        | 0 <= k < s.len() && #[trigger] s[k] == t[j] by {
            if j < i {
                assert(s[j] == t[j]);
            } else {
                assert(s[j + 1] == t[j]);
            }
        }
        lemma_others_kept(s, t, key);
    }
}

proof fn lemma_own_update(st: SndcpView, t: Seq<CtxView>, mine: PdpKey, key: PdpKey)
    requires
        st.wf(),
        mine != key,
        t == st.contexts || (ctx_pos(st.contexts, mine) matches Some(i) && exists|c: CtxView|
            #![trigger st.contexts.update(i, c)]
            c.key == st.contexts[i].key && t == st.contexts.update(i, c)),
    ensures
        find_ctx(t, key) == find_ctx(st.contexts, key),
{
    if t != st.contexts {
        let i = ctx_pos(st.contexts, mine)->0;
        assert(has_ctx(st.contexts, mine, i));
        let c = choose|c: CtxView|
            #![trigger st.contexts.update(i, c)]
            c.key == st.contexts[i].key && t == st.contexts.update(i, c);
        lemma_update_others(st, i, c, key);
    }
}

} // verus!
