//! Reservations of packet data channels.

use crate::tdma::TdmaTime;
use std::collections::{HashMap, HashSet};
use vstd::prelude::*;

verus! {

/// Frames without activity after which a reservation is released, about 17 seconds.
pub const PDCH_IDLE_RELEASE_FRAMES: u32 = 300;

/// Most reservations that live at the same time. The usage markers 4 to 62 are 59 values;
/// three of them stay spare.
pub const PDCH_MAX_RESERVATIONS: usize = 56;

/// The reservation of one terminal.
#[derive(Debug, Clone, Copy, PartialEq, Eq, Structural)]
pub struct PdchReservation {
    pub issi: u32,
    pub nsapi: u8,
    pub reserved_at: TdmaTime,
    pub last_used_at: TdmaTime,
    /// Traffic usage marker by which the terminal knows its slot, 4 to 62.
    pub umt: u8,
}

/// Keeps the reservations and releases idle ones.
pub struct PdchAllocator {
    /// By ISSI.
    pub reservations: HashMap<u32, PdchReservation>,
    pub idle_release_frames: u32,
    /// Timeslots of the channel, the preferred one first. Empty while voice has them all.
    pub current_timeslots: Vec<u8>,
    /// For each of the timeslots 2 to 4, ticks in a row in which voice left it free.
    pub consec_free_ticks: HashMap<u8, u8>,
    /// The usage marker to try next.
    pub next_umt: u8,
}

/// What a [`PdchAllocator`] holds.
#[verifier::ext_equal]
pub struct PdchView {
    pub reservations: Map<u32, PdchReservation>,
    pub idle_release_frames: u32,
    pub timeslots: Seq<u8>,
    pub free_ticks: Map<u8, u8>,
    pub next_umt: u8,
}

impl View for PdchAllocator {
    type V = PdchView;

    open spec fn view(&self) -> PdchView {
        PdchView {
            reservations: self.reservations@,
            idle_release_frames: self.idle_release_frames,
            timeslots: self.current_timeslots@,
            free_ticks: self.consec_free_ticks@,
            next_umt: self.next_umt,
        }
    }
}

/// A live reservation has this usage marker.
pub open spec fn held(r: Map<u32, PdchReservation>, umt: u8) -> bool {
    exists|issi: u32| #[trigger] r.contains_key(issi) && r[issi].umt == umt
}

/// The `k`-th usage marker that is tried, counted from the cursor round the values 4 to 62.
pub open spec fn candidate(next_umt: u8, k: int) -> u8 {
    (4 + (next_umt - 4 + k) % 59) as u8
}

/// The `k`-th usage marker that is tried is the first that nobody holds.
pub open spec fn is_first_free(st: PdchView, k: int) -> bool {
    &&& 0 <= k < 59
    &&& !held(st.reservations, candidate(st.next_umt, k))
    &&& forall|j: int|
        0 <= j < k ==> held(st.reservations, #[trigger] candidate(st.next_umt, j))
}

/// How many held usage markers are passed over.
pub open spec fn first_free(st: PdchView) -> int {
    choose|k: int| is_first_free(st, k)
}

impl PdchView {
    /// The cursor stands on a usable marker.
    pub open spec fn cursor_ok(self) -> bool {
        4 <= self.next_umt <= 62
    }

    /// What the operations keep: each reservation is filed under its terminal, there are no
    /// more than the cap, and no two share a usage marker.
    pub open spec fn wf(self) -> bool {
        &&& self.cursor_ok()
        &&& self.reservations.dom().finite()
        &&& self.reservations.len() <= PDCH_MAX_RESERVATIONS
        &&& forall|i: u32| #[trigger]
            self.reservations.contains_key(i) ==> self.reservations[i].issi == i && 4
                <= self.reservations[i].umt <= 62
        &&& forall|i: u32, j: u32|
            #![trigger self.reservations.contains_key(i), self.reservations.contains_key(j)]
            self.reservations.contains_key(i) && self.reservations.contains_key(j)
                && self.reservations[i].umt == self.reservations[j].umt ==> i == j
    }
}

/// The allocator after a request for a reservation. One that exists is refreshed, also at
/// the cap. A new one gets the first usage marker that nobody holds.
pub open spec fn after_reserve(st: PdchView, issi: u32, nsapi: u8, now: TdmaTime) -> PdchView {
    if st.reservations.contains_key(issi) {
        after_touch(st, issi, now)
    } else if st.reservations.len() >= PDCH_MAX_RESERVATIONS {
        st
    } else {
        let k = first_free(st);
        PdchView {
            reservations: st.reservations.insert(
                issi,
                PdchReservation {
                    issi,
                    nsapi,
                    reserved_at: now,
                    last_used_at: now,
                    umt: candidate(st.next_umt, k),
                },
            ),
            next_umt: candidate(st.next_umt, k + 1),
            ..st
        }
    }
}

/// What a request for a reservation returns: whether it is new, or nothing when the cap is
/// reached.
pub open spec fn reserve_result(st: PdchView, issi: u32) -> Option<bool> {
    if st.reservations.contains_key(issi) {
        Some(false)
    } else if st.reservations.len() >= PDCH_MAX_RESERVATIONS {
        None
    } else {
        Some(true)
    }
}

/// The allocator after activity of a terminal.
pub open spec fn after_touch(st: PdchView, issi: u32, now: TdmaTime) -> PdchView {
    if st.reservations.contains_key(issi) {
        PdchView {
            reservations: st.reservations.insert(
                issi,
                PdchReservation { last_used_at: now, ..st.reservations[issi] },
            ),
            ..st
        }
    } else {
        st
    }
}

/// The preferred timeslot of the channel, if it has any.
pub open spec fn primary_of(st: PdchView) -> Option<u8> {
    if st.timeslots.len() > 0 {
        Some(st.timeslots[0])
    } else {
        None
    }
}

/// The allocator after a terminal has given its reservation up.
pub open spec fn after_release(st: PdchView, issi: u32) -> PdchView {
    PdchView { reservations: st.reservations.remove(issi), ..st }
}

/// Whole frames between two times.
pub open spec fn frames_between(a: TdmaTime, b: TdmaTime) -> int {
    let d = a.slot_index() - b.slot_index();
    if d < 0 {
        (-d) / 4
    } else {
        d / 4
    }
}

/// The terminal has a reservation that has been idle for the configured number of frames.
pub open spec fn is_idle(st: PdchView, now: TdmaTime, issi: u32) -> bool {
    st.reservations.contains_key(issi) && frames_between(now, st.reservations[issi].last_used_at)
        >= st.idle_release_frames
}

/// The allocator after the idle reservations have been released.
pub open spec fn after_expire(st: PdchView, now: TdmaTime) -> PdchView {
    PdchView {
        reservations: st.reservations.remove_keys(Set::new(|i: u32| is_idle(st, now, i))),
        ..st
    }
}

/// The counter of a timeslot: zero if it was never counted.
pub open spec fn ticks_of(m: Map<u8, u8>, ts: u8) -> u8 {
    if m.contains_key(ts) {
        m[ts]
    } else {
        0
    }
}

/// The counter of a timeslot after a tick: one more while it is free, up to the threshold,
/// and zero when voice has it.
pub open spec fn counted(m: Map<u8, u8>, free_ts: Seq<u8>, ts: u8, stability_ticks: u8) -> u8 {
    if free_ts.contains(ts) {
        if ticks_of(m, ts) < stability_ticks {
            (ticks_of(m, ts) + 1) as u8
        } else {
            stability_ticks
        }
    } else {
        0
    }
}

/// The counters of the timeslots 2 to 4 after a tick.
pub open spec fn counters_after(m: Map<u8, u8>, free_ts: Seq<u8>, stability_ticks: u8) -> Map<
    u8,
    u8,
> {
    m.insert(2, counted(m, free_ts, 2, stability_ticks)).insert(
        3,
        counted(m, free_ts, 3, stability_ticks),
    ).insert(4, counted(m, free_ts, 4, stability_ticks))
}

/// The timeslots of the list that have been free for long enough, in the order of the list.
pub open spec fn stable_ones(m: Map<u8, u8>, free_ts: Seq<u8>, stability_ticks: u8) -> Seq<u8>
    decreases free_ts.len(),
{
    if free_ts.len() == 0 {
        Seq::empty()
    } else {
        let rest = stable_ones(m, free_ts.drop_last(), stability_ticks);
        if ticks_of(m, free_ts.last()) >= stability_ticks {
            rest.push(free_ts.last())
        } else {
            rest
        }
    }
}

/// Fewer reservations than usage markers leave one of them free.
proof fn lemma_marker_is_free(st: PdchView)
    requires
        st.cursor_ok(),
        st.reservations.dom().finite(),
        st.reservations.len() < 59,
    ensures
        exists|k: int| 0 <= k < 59 && !held(st.reservations, #[trigger] candidate(st.next_umt, k)),
{
    if forall|k: int| 0 <= k < 59 ==> held(st.reservations, #[trigger] candidate(st.next_umt, k)) {
        let r = st.reservations;
        let holder = |k: int|
            choose|issi: u32| #[trigger]
                r.contains_key(issi) && r[issi].umt == candidate(st.next_umt, k);
        let s: Seq<u32> = Seq::new(59, holder);
        assert forall|k: int| 0 <= k < 59 implies r.contains_key(#[trigger] s[k]) && r[s[k]].umt
            == candidate(st.next_umt, k) by {
            assert(held(r, candidate(st.next_umt, k)));
            assert(s[k] == holder(k));
        }
        assert forall|i: int, j: int| 0 <= i < s.len() && 0 <= j < s.len() && i != j implies s[i]
            != s[j] by {
            assert(r[s[i]].umt == candidate(st.next_umt, i));
            assert(r[s[j]].umt == candidate(st.next_umt, j));
        }
        assert(s.no_duplicates());
        s.unique_seq_to_set();
        assert(s.to_set().subset_of(r.dom()));
        vstd::set_lib::lemma_len_subset(s.to_set(), r.dom());
    }
}

/// Where a marker is free, there is a first one.
proof fn lemma_first_free_exists(st: PdchView, k: int)
    requires
        0 <= k < 59,
        !held(st.reservations, candidate(st.next_umt, k)),
    ensures
        exists|j: int| is_first_free(st, j),
    decreases k,
{
    if is_first_free(st, k) {
    } else {
        let j = choose|j: int|
            0 <= j < k && !held(st.reservations, #[trigger] candidate(st.next_umt, j));
        lemma_first_free_exists(st, j);
    }
}

proof fn lemma_first_free_unique(st: PdchView, a: int, b: int)
    requires
        is_first_free(st, a),
        is_first_free(st, b),
    ensures
        a == b,
{
    if a < b {
        assert(held(st.reservations, candidate(st.next_umt, a)));
    }
    if b < a {
        assert(held(st.reservations, candidate(st.next_umt, b)));
    }
}

/// A new reservation keeps the invariant.
proof fn lemma_reserve_wf(st: PdchView, issi: u32, nsapi: u8, now: TdmaTime)
    requires
        st.wf(),
    ensures
        after_reserve(st, issi, nsapi, now).wf(),
{
    if !st.reservations.contains_key(issi) && st.reservations.len() < PDCH_MAX_RESERVATIONS {
        lemma_marker_is_free(st);
        let k0 = choose|k: int|
            0 <= k < 59 && !held(st.reservations, #[trigger] candidate(st.next_umt, k));
        lemma_first_free_exists(st, k0);
        let k = first_free(st);
        assert(is_first_free(st, k));
        let u = candidate(st.next_umt, k);
        assert forall|i: u32| #[trigger] st.reservations.contains_key(i) implies
            st.reservations[i].umt != u by {}
    }
}

impl PdchAllocator {
    /// An allocator without reservations.
    pub fn new(idle_release_frames: u32) -> (r: PdchAllocator)
        ensures
            r@ == (PdchView {
                reservations: Map::empty(),
                idle_release_frames,
                timeslots: Seq::empty(),
                free_ticks: Map::empty(),
                next_umt: 4,
            }),
            r@.wf(),
    {
        broadcast use vstd::std_specs::hash::group_hash_axioms;

        PdchAllocator {
            reservations: HashMap::new(),
            idle_release_frames,
            current_timeslots: Vec::new(),
            consec_free_ticks: HashMap::new(),
            next_umt: 4,
        }
    }

    /// Counts a tick for one timeslot.
    fn count_tick(&mut self, free_ts: &[u8], ts: u8, stability_ticks: u8)
        ensures
            final(self)@ == (PdchView {
                free_ticks: old(self)@.free_ticks.insert(
                    ts,
                    counted(old(self)@.free_ticks, free_ts@, ts, stability_ticks),
                ),
                ..old(self)@
            }),
    {
        broadcast use vstd::std_specs::hash::group_hash_axioms;

        let before: u8 = match self.consec_free_ticks.get(&ts) {
            Some(n) => *n,
            None => 0,
        };
        let after: u8 = if slots_contain(free_ts, ts) {
            if before < stability_ticks {
                before + 1
            } else {
                stability_ticks
            }
        } else {
            0
        };
        self.consec_free_ticks.insert(ts, after);
    }

    /// Counts a tick in which voice left the given timeslots free. Returns those of them
    /// that have now been free for `stability_ticks` ticks in a row, in the same order, so
    /// that a channel does not come and go with every call. With a threshold of zero all of
    /// them are returned.
    pub fn tick_stability(&mut self, free_ts: &[u8], stability_ticks: u8) -> (r: Vec<u8>)
        ensures
            final(self)@ == (PdchView {
                free_ticks: counters_after(old(self)@.free_ticks, free_ts@, stability_ticks),
                ..old(self)@
            }),
            r@ == stable_ones(final(self)@.free_ticks, free_ts@, stability_ticks),
            stability_ticks == 0 ==> r@ == free_ts@,
            old(self)@.wf() ==> final(self)@.wf(),
    {
        let ghost st = self@;
        self.count_tick(free_ts, 2, stability_ticks);
        self.count_tick(free_ts, 3, stability_ticks);
        self.count_tick(free_ts, 4, stability_ticks);
        assert(self@.free_ticks =~= counters_after(st.free_ticks, free_ts@, stability_ticks));
        let mut r: Vec<u8> = Vec::new();
        let mut i: usize = 0;
        while i < free_ts.len()
            invariant
                i <= free_ts@.len(),
                r@ == stable_ones(self@.free_ticks, free_ts@.take(i as int), stability_ticks),
                stability_ticks == 0 ==> r@ == free_ts@.take(i as int),
            decreases free_ts@.len() - i,
        {
            broadcast use vstd::std_specs::hash::group_hash_axioms;

            let ts: u8 = free_ts[i];
            let n: u8 = match self.consec_free_ticks.get(&ts) {
                Some(n) => *n,
                None => 0,
            };
            proof {
                let t = free_ts@.take(i + 1);
                assert(t.drop_last() =~= free_ts@.take(i as int));
                assert(t.last() == ts);
                assert(n == ticks_of(self@.free_ticks, ts));
            }
            if n >= stability_ticks {
                r.push(ts);
            }
            i = i + 1;
        }
        assert(free_ts@.take(i as int) =~= free_ts@);
        r
    }

    /// The usage markers that are held.
    fn held_markers(&self) -> (r: HashSet<u8>)
        ensures
            forall|u: u8| #[trigger] r@.contains(u) <==> held(self@.reservations, u),
    {
        broadcast use vstd::std_specs::hash::group_hash_axioms;

        let mut r: HashSet<u8> = HashSet::new();
        let ghost m = self.reservations@;
        for p in it: self.reservations.iter()
            invariant
                m == self.reservations@,
                forall|i: int|
                    0 <= i < it.seq().len() ==> m.contains_key(*(#[trigger] it.seq()[i]).0)
                        && m[*it.seq()[i].0] == *it.seq()[i].1,
                forall|k: u32| #[trigger] m.contains_key(k) ==> it.seq().contains((&k, &m[k])),
                forall|u: u8| #[trigger]
                    r@.contains(u) <==> exists|i: int|
                        0 <= i < it.index() && (#[trigger] it.seq()[i]).1.umt == u,
        {
            let ghost before = r@;
            let ghost idx = it.index();
            r.insert(p.1.umt);
            proof {
                assert(r@ == before.insert(p.1.umt));
                assert forall|u: u8| #[trigger] r@.contains(u) <==> exists|i: int|
                    0 <= i < idx + 1 && (#[trigger] it.seq()[i]).1.umt == u by {
                    if r@.contains(u) {
                        if u == p.1.umt {
                            assert(it.seq()[idx].1.umt == u);
                        } else {
                            assert(before.contains(u));
                            let i = choose|i: int|
                                0 <= i < idx && (#[trigger] it.seq()[i]).1.umt == u;
                            assert(it.seq()[i].1.umt == u);
                        }
                    }
                    if exists|i: int| 0 <= i < idx + 1 && (#[trigger] it.seq()[i]).1.umt == u {
                        let i = choose|i: int|
                            0 <= i < idx + 1 && (#[trigger] it.seq()[i]).1.umt == u;
                        if i < idx {
                            assert(before.contains(u));
                        }
                    }
                }
            }
        }
        r
    }

    /// Takes the first usage marker from the cursor on that nobody holds.
    fn alloc_umt(&mut self) -> (r: Option<u8>)
        requires
            old(self)@.cursor_ok(),
        ensures
            match r {
                Some(u) => exists|k: int| #[trigger]
                    is_first_free(old(self)@, k) && u == candidate(old(self)@.next_umt, k)
                        && final(self)@ == (PdchView {
                        next_umt: candidate(old(self)@.next_umt, k + 1),
                        ..old(self)@
                    }),
                None => final(self)@ == old(self)@ && forall|k: int|
                    0 <= k < 59 ==> held(
                        old(self)@.reservations,
                        #[trigger] candidate(old(self)@.next_umt, k),
                    ),
            },
    {
        let ghost st = self@;
        let held_now: HashSet<u8> = self.held_markers();
        let mut k: u8 = 0;
        while k < 59
            invariant
                k <= 59,
                st == old(self)@,
                st.cursor_ok(),
                self@ == (PdchView { next_umt: candidate(st.next_umt, k as int), ..st }),
                forall|u: u8| #[trigger] held_now@.contains(u) <==> held(st.reservations, u),
                forall|j: int|
                    0 <= j < k ==> held(st.reservations, #[trigger] candidate(st.next_umt, j)),
            decreases 59 - k,
        {
            broadcast use vstd::std_specs::hash::group_hash_axioms;

            let c: u8 = self.next_umt;
            self.next_umt = if c >= 62 {
                4
            } else {
                c + 1
            };
            assert(self.next_umt == candidate(st.next_umt, k + 1));
            if !held_now.contains(&c) {
                assert(is_first_free(old(self)@, k as int));
                assert(self@ == (PdchView { next_umt: candidate(st.next_umt, k as int + 1), ..st }));
                return Some(c);
            }
            k = k + 1;
        }
        assert(candidate(st.next_umt, 59) == st.next_umt);
        None
    }

    /// Makes a reservation for a terminal, or refreshes the one it has. Returns
    /// `Some(true)` for a new reservation, `Some(false)` for a refreshed one, and `None`
    /// when the cap is reached.
    pub fn reserve(&mut self, issi: u32, nsapi: u8, now: TdmaTime) -> (r: Option<bool>)
        requires
            old(self)@.cursor_ok(),
        ensures
            final(self)@ == after_reserve(old(self)@, issi, nsapi, now),
            r == reserve_result(old(self)@, issi),
            final(self)@.cursor_ok(),
            old(self)@.wf() ==> final(self)@.wf(),
    {
        broadcast use vstd::std_specs::hash::group_hash_axioms;

        let ghost st = self@;
        proof {
            if st.wf() {
                lemma_reserve_wf(st, issi, nsapi, now);
            }
        }
        if self.reservations.contains_key(&issi) {
            self.touch(issi, now);
            return Some(false);
        }
        if self.reservations.len() >= PDCH_MAX_RESERVATIONS {
            return None;
        }
        proof {
            assert(st.reservations.dom().finite());
            lemma_marker_is_free(st);
        }
        let umt: u8 = match self.alloc_umt() {
            Some(u) => u,
            None => {
                return None;
            },
        };
        proof {
            let k = choose|k: int| #[trigger]
                is_first_free(st, k) && umt == candidate(st.next_umt, k) && self@ == (PdchView {
                    next_umt: candidate(st.next_umt, k + 1),
                    ..st
                });
            lemma_first_free_unique(st, k, first_free(st));
        }
        self.reservations.insert(
            issi,
            PdchReservation { issi, nsapi, reserved_at: now, last_used_at: now, umt },
        );
        Some(true)
    }

    /// Notes activity of a terminal. Makes no reservation.
    pub fn touch(&mut self, issi: u32, now: TdmaTime)
        ensures
            final(self)@ == after_touch(old(self)@, issi, now),
            old(self)@.wf() ==> final(self)@.wf(),
    {
        broadcast use vstd::std_specs::hash::group_hash_axioms;

        let found: Option<PdchReservation> = match self.reservations.get(&issi) {
            Some(r) => Some(*r),
            None => None,
        };
        if let Some(r) = found {
            self.reservations.insert(issi, PdchReservation { last_used_at: now, ..r });
        }
    }

    /// The preferred timeslot of the channel.
    pub fn primary_timeslot(&self) -> (r: Option<u8>)
        ensures
            r == primary_of(self@),
    {
        if self.current_timeslots.len() > 0 {
            Some(self.current_timeslots[0])
        } else {
            None
        }
    }

    /// Gives a terminal's reservation up.
    pub fn release(&mut self, issi: u32)
        ensures
            final(self)@ == after_release(old(self)@, issi),
            old(self)@.wf() ==> final(self)@.wf(),
    {
        broadcast use vstd::std_specs::hash::group_hash_axioms;

        self.reservations.remove(&issi);
    }

    /// The terminals whose reservation is idle.
    fn idle_terminals(&self, now: TdmaTime) -> (r: Vec<u32>)
        ensures
            r@.no_duplicates(),
            forall|i: u32| #[trigger] r@.contains(i) <==> is_idle(self@, now, i),
    {
        broadcast use vstd::std_specs::hash::group_hash_axioms;

        let mut r: Vec<u32> = Vec::new();
        let ghost st = self@;
        let ghost m = self.reservations@;
        for p in it: self.reservations.iter()
            invariant
                st == self@,
                m == self.reservations@,
                it.seq().no_duplicates(),
                forall|i: int|
                    0 <= i < it.seq().len() ==> m.contains_key(*(#[trigger] it.seq()[i]).0)
                        && m[*it.seq()[i].0] == *it.seq()[i].1,
                forall|k: u32| #[trigger] m.contains_key(k) ==> it.seq().contains((&k, &m[k])),
                r@.no_duplicates(),
                forall|u: u32| #[trigger]
                    r@.contains(u) <==> is_idle(st, now, u) && exists|i: int|
                        0 <= i < it.index() && *(#[trigger] it.seq()[i]).0 == u,
        {
            let ghost before = r@;
            let ghost idx = it.index();
            let issi: u32 = *p.0;
            let last_used_at: TdmaTime = p.1.last_used_at;
            let d: i32 = now.diff(last_used_at);
            let slots: u32 = if d < 0 {
                (-d) as u32
            } else {
                d as u32
            };
            proof {
                assert(it.seq()[idx] == p);
                assert(m.contains_key(issi) && m[issi] == *p.1);
                assert(slots / 4 == frames_between(now, last_used_at));
                assert(!before.contains(issi)) by {
                    if exists|i: int| 0 <= i < idx && *(#[trigger] it.seq()[i]).0 == issi {
                        let i = choose|i: int| 0 <= i < idx && *(#[trigger] it.seq()[i]).0 == issi;
                        assert(m[*it.seq()[i].0] == *it.seq()[i].1);
                        assert(it.seq()[i] == it.seq()[idx]);
                    }
                }
            }
            if slots / 4 >= self.idle_release_frames {
                r.push(issi);
            }
            proof {
                assert forall|u: u32| #[trigger] r@.contains(u) <==> is_idle(st, now, u) && exists|
                    i: int,
                | 0 <= i < idx + 1 && *(#[trigger] it.seq()[i]).0 == u by {
                    if r@.contains(u) {
                        let j = choose|j: int| 0 <= j < r@.len() && r@[j] == u;
                        if j < before.len() {
                            assert(before[j] == u);
                            assert(before.contains(u));
                            let i = choose|i: int|
                                0 <= i < idx && *(#[trigger] it.seq()[i]).0 == u;
                            assert(*it.seq()[i].0 == u);
                        } else {
                            assert(*it.seq()[idx].0 == u);
                        }
                    }
                    if is_idle(st, now, u) && exists|i: int|
                        0 <= i < idx + 1 && *(#[trigger] it.seq()[i]).0 == u {
                        let i = choose|i: int|
                            0 <= i < idx + 1 && *(#[trigger] it.seq()[i]).0 == u;
                        if i < idx {
                            assert(before.contains(u));
                            let j = choose|j: int| 0 <= j < before.len() && before[j] == u;
                            assert(r@[j] == u);
                        } else {
                            assert(r@[r@.len() - 1] == u);
                        }
                    }
                }
            }
        }
        r
    }

    /// Releases the reservations that have been idle for the configured number of frames.
    /// Returns their terminals, each once, in no particular order.
    pub fn expire_idle(&mut self, now: TdmaTime) -> (r: Vec<u32>)
        ensures
            final(self)@ == after_expire(old(self)@, now),
            r@.no_duplicates(),
            forall|i: u32| #[trigger] r@.contains(i) <==> is_idle(old(self)@, now, i),
            old(self)@.wf() ==> final(self)@.wf(),
    {
        let ghost st = self@;
        let released: Vec<u32> = self.idle_terminals(now);
        let mut i: usize = 0;
        while i < released.len()
            invariant
                i <= released@.len(),
                self@ == (PdchView { reservations: self@.reservations, ..st }),
                st.wf() ==> self@.wf(),
                forall|u: u32| #[trigger]
                    self@.reservations.contains_key(u) <==> st.reservations.contains_key(u)
                        && !released@.take(i as int).contains(u),
                forall|u: u32| #[trigger]
                    self@.reservations.contains_key(u) ==> self@.reservations[u]
                        == st.reservations[u],
            decreases released@.len() - i,
        {
            let issi: u32 = released[i];
            let ghost before = self@;
            self.release(issi);
            proof {
                assert forall|u: u32| #[trigger]
                    self@.reservations.contains_key(u) <==> st.reservations.contains_key(u)
                        && !released@.take(i + 1).contains(u) by {
                    let t = released@.take(i + 1);
                    let b = released@.take(i as int);
                    assert(t =~= b.push(issi));
                    assert(t[i as int] == issi);
                    if b.contains(u) {
                        let j = choose|j: int| 0 <= j < b.len() && b[j] == u;
                        assert(t[j] == u);
                    }
                    if t.contains(u) && u != issi {
                        let j = choose|j: int| 0 <= j < t.len() && t[j] == u;
                        assert(b[j] == u);
                    }
                    assert(before.reservations.contains_key(u) <==> st.reservations.contains_key(u)
                        && !b.contains(u));
                }
            }
            i = i + 1;
        }
        assert(released@.take(i as int) =~= released@);
        assert(self@.reservations =~= after_expire(st, now).reservations);
        released
    }
}

/// The list holds the timeslot.
fn slots_contain(list: &[u8], ts: u8) -> (r: bool)
    ensures
        r == list@.contains(ts),
{
    let mut i: usize = 0;
    while i < list.len()
        invariant
            i <= list@.len(),
            forall|j: int| 0 <= j < i ==> list@[j] != ts,
        decreases list@.len() - i,
    {
        if list[i] == ts {
            return true;
        }
        i = i + 1;
    }
    false
}

/// No two live reservations share a usage marker, so nobody gets what is meant for another.
pub proof fn law_markers_distinct(st: PdchView, i: u32, j: u32)
    requires
        st.wf(),
        st.reservations.contains_key(i),
        st.reservations.contains_key(j),
        i != j,
    ensures
        st.reservations[i].umt != st.reservations[j].umt,
        4 <= st.reservations[i].umt <= 62,
{
}

/// Below the cap a new terminal gets a reservation with a usage marker that nobody held,
/// and the others keep theirs.
pub proof fn law_new_reservation(st: PdchView, issi: u32, nsapi: u8, now: TdmaTime, other: u32)
    requires
        st.wf(),
        !st.reservations.contains_key(issi),
        st.reservations.len() < PDCH_MAX_RESERVATIONS,
        st.reservations.contains_key(other),
    ensures
        reserve_result(st, issi) == Some(true),
        after_reserve(st, issi, nsapi, now).reservations.contains_key(issi),
        !held(st.reservations, after_reserve(st, issi, nsapi, now).reservations[issi].umt),
        after_reserve(st, issi, nsapi, now).reservations[other] == st.reservations[other],
{
    lemma_marker_is_free(st);
    let k0 = choose|k: int|
        0 <= k < 59 && !held(st.reservations, #[trigger] candidate(st.next_umt, k));
    lemma_first_free_exists(st, k0);
    assert(is_first_free(st, first_free(st)));
}

/// A terminal that has a reservation is refreshed whatever the number of reservations. It
/// keeps its usage marker and the time at which it got it.
pub proof fn law_refresh_always_accepted(st: PdchView, issi: u32, nsapi: u8, now: TdmaTime)
    requires
        st.reservations.contains_key(issi),
    ensures
        reserve_result(st, issi) == Some(false),
        after_reserve(st, issi, nsapi, now).reservations[issi] == (PdchReservation {
            last_used_at: now,
            ..st.reservations[issi]
        }),
        after_reserve(st, issi, nsapi, now).reservations.dom() == st.reservations.dom(),
{
    assert(after_reserve(st, issi, nsapi, now).reservations.dom() =~= st.reservations.dom());
}

/// At the cap a new terminal is refused, until another gives its reservation up.
pub proof fn law_release_makes_room(st: PdchView, leaver: u32, issi: u32)
    requires
        st.wf(),
        st.reservations.len() == PDCH_MAX_RESERVATIONS,
        st.reservations.contains_key(leaver),
        !st.reservations.contains_key(issi),
    ensures
        reserve_result(st, issi) is None,
        reserve_result(
            PdchView { reservations: st.reservations.remove(leaver), ..st },
            issi,
        ) == Some(true),
{
}

/// A reservation in use within the idle time survives, one that is not goes.
pub proof fn law_expiry_is_exact(st: PdchView, now: TdmaTime, issi: u32)
    requires
        st.reservations.contains_key(issi),
    ensures
        after_expire(st, now).reservations.contains_key(issi) <==> frames_between(
            now,
            st.reservations[issi].last_used_at,
        ) < st.idle_release_frames,
{
}

/// The counters after ticks with the given free timeslots, the oldest first.
pub open spec fn counters_run(hist: Seq<Seq<u8>>, stability_ticks: u8) -> Map<u8, u8>
    decreases hist.len(),
{
    if hist.len() == 0 {
        Map::empty()
    } else {
        counters_after(
            counters_run(hist.drop_last(), stability_ticks),
            hist.last(),
            stability_ticks,
        )
    }
}

/// The timeslot was free in each of the last `k` ticks.
pub open spec fn free_throughout(hist: Seq<Seq<u8>>, ts: u8, k: int) -> bool {
    &&& k <= hist.len()
    &&& forall|i: int| hist.len() - k <= i < hist.len() ==> (#[trigger] hist[i]).contains(ts)
}

/// The counter of a timeslot is at least `n`, for every `n` up to the threshold, exactly if
/// the timeslot was free in the last `n` ticks.
proof fn lemma_counter_counts(hist: Seq<Seq<u8>>, ts: u8, stability_ticks: u8, n: int)
    requires
        2 <= ts <= 4,
        1 <= n <= stability_ticks,
    ensures
        ticks_of(counters_run(hist, stability_ticks), ts) >= n <==> free_throughout(hist, ts, n),
        ticks_of(counters_run(hist, stability_ticks), ts) <= stability_ticks,
    decreases hist.len(),
{
    if hist.len() > 0 {
        let h = hist.drop_last();
        let before = counters_run(h, stability_ticks);
        lemma_counter_counts(h, ts, stability_ticks, n);
        if n > 1 {
            lemma_counter_counts(h, ts, stability_ticks, n - 1);
        }
        let now = counters_run(hist, stability_ticks);
        assert(ticks_of(now, ts) == counted(before, hist.last(), ts, stability_ticks));
        if free_throughout(hist, ts, n) {
            assert(hist[hist.len() - 1].contains(ts));
            if n > 1 {
                assert forall|i: int| h.len() - (n - 1) <= i < h.len() implies (
                #[trigger] h[i]).contains(ts) by {
                    assert(hist[i].contains(ts));
                }
                assert(free_throughout(h, ts, n - 1));
            }
        }
        if hist.last().contains(ts) && (n == 1 || free_throughout(h, ts, n - 1)) {
            assert forall|i: int| hist.len() - n <= i < hist.len() implies (
            #[trigger] hist[i]).contains(ts) by {
                if i < hist.len() - 1 {
                    assert(h[i].contains(ts));
                }
            }
            assert(free_throughout(hist, ts, n));
        }
    }
}

/// The counters of the channel's timeslots are at most the threshold of the last tick.
pub proof fn law_counters_capped(m: Map<u8, u8>, free_ts: Seq<u8>, stability_ticks: u8, ts: u8)
    requires
        2 <= ts <= 4,
    ensures
        counters_after(m, free_ts, stability_ticks).contains_key(ts),
        counters_after(m, free_ts, stability_ticks)[ts] <= stability_ticks,
        !free_ts.contains(ts) ==> counters_after(m, free_ts, stability_ticks)[ts] == 0,
{
}

/// A timeslot of the channel is announced exactly if voice left it free in each of the last
/// `stability_ticks` ticks. One moment of voice makes it wait for the full time again.
pub proof fn law_announced_after_stable_time(hist: Seq<Seq<u8>>, ts: u8, stability_ticks: u8)
    requires
        2 <= ts <= 4,
        1 <= stability_ticks,
        hist.len() > 0,
    ensures
        stable_ones(counters_run(hist, stability_ticks), hist.last(), stability_ticks).contains(ts)
            <==> free_throughout(hist, ts, stability_ticks as int),
{
    let m = counters_run(hist, stability_ticks);
    lemma_counter_counts(hist, ts, stability_ticks, stability_ticks as int);
    lemma_stable_ones(m, hist.last(), stability_ticks, ts);
    if free_throughout(hist, ts, stability_ticks as int) {
        assert(hist[hist.len() - 1].contains(ts));
    }
}

proof fn lemma_stable_ones(m: Map<u8, u8>, free_ts: Seq<u8>, stability_ticks: u8, ts: u8)
    ensures
        stable_ones(m, free_ts, stability_ticks).contains(ts) <==> free_ts.contains(ts)
            && ticks_of(m, ts) >= stability_ticks,
    decreases free_ts.len(),
{
    if free_ts.len() > 0 {
        let f = free_ts.drop_last();
        lemma_stable_ones(m, f, stability_ticks, ts);
        let rest = stable_ones(m, f, stability_ticks);
        let all = stable_ones(m, free_ts, stability_ticks);
        assert(free_ts =~= f.push(free_ts.last()));
        assert(f.push(free_ts.last()).contains(ts) <==> f.contains(ts) || ts == free_ts.last()) by {
            vstd::seq_lib::lemma_seq_contains_after_push(f, free_ts.last(), ts);
        }
        if ticks_of(m, free_ts.last()) >= stability_ticks {
            vstd::seq_lib::lemma_seq_contains_after_push(rest, free_ts.last(), ts);
        }
    }
}

/// Going round the markers 4 to 62 from `from`, marker `u` comes before marker `to`.
pub open spec fn passed(from: u8, to: u8, u: u8) -> bool {
    4 <= u <= 62 && if from <= to {
        from <= u < to
    } else {
        from <= u || u < to
    }
}

proof fn lemma_round(from: u8, k: int, u: u8) -> (j: int)
    requires
        4 <= from <= 62,
        0 <= k < 59,
        passed(from, candidate(from, k), u),
    ensures
        0 <= j < k,
        candidate(from, j) == u,
{
    if from + k <= 62 {
        assert((from - 4 + k) % 59 == from - 4 + k);
    } else {
        assert((from - 4 + k) % 59 == from - 4 + k - 59);
    }
    if from <= u {
        assert((from - 4 + (u - from)) % 59 == u - 4);
        u - from
    } else {
        assert((from - 4 + (u - from + 59)) % 59 == u - 4);
        u - from + 59
    }
}

/// A terminal that has no reservation gets one while fewer than 56 are held. It is filed under
/// the terminal, for the service that asked, begins now and counts as used now. Its marker is the
/// first from the cursor on, round the markers 4 to 62, that nobody holds, and the cursor moves
/// behind it. Nothing else changes.
pub proof fn law_reservation_made(st: PdchView, issi: u32, nsapi: u8, now: TdmaTime)
    requires
        st.wf(),
        !st.reservations.contains_key(issi),
        st.reservations.len() < 56,
    ensures
        ({
            let t = after_reserve(st, issi, nsapi, now);
            let r = t.reservations[issi];
            &&& reserve_result(st, issi) == Some(true)
            &&& t.reservations.contains_key(issi)
            &&& r.issi == issi && r.nsapi == nsapi && r.reserved_at == now && r.last_used_at == now
            &&& 4 <= r.umt <= 62
            &&& forall|i: u32| #[trigger]
                st.reservations.contains_key(i) ==> st.reservations[i].umt != r.umt
            &&& forall|u: u8| #[trigger]
                passed(st.next_umt, r.umt, u) ==> exists|i: u32| #[trigger]
                    st.reservations.contains_key(i) && st.reservations[i].umt == u
            &&& t.next_umt == if r.umt == 62 {
                4
            } else {
                r.umt + 1
            }
            &&& forall|i: u32|
                i != issi ==> (#[trigger] t.reservations.contains_key(i)
                    <==> st.reservations.contains_key(i))
            &&& forall|i: u32|
                i != issi && #[trigger] st.reservations.contains_key(i) ==> t.reservations[i]
                    == st.reservations[i]
            &&& t.timeslots == st.timeslots && t.free_ticks == st.free_ticks
                && t.idle_release_frames == st.idle_release_frames
        }),
{
    lemma_marker_is_free(st);
    let k0 = choose|k: int|
        0 <= k < 59 && !held(st.reservations, #[trigger] candidate(st.next_umt, k));
    lemma_first_free_exists(st, k0);
    let k = first_free(st);
    assert(is_first_free(st, k));
    let umt = candidate(st.next_umt, k);
    assert forall|i: u32| #[trigger] st.reservations.contains_key(i) implies st.reservations[i].umt
        != umt by {
        if st.reservations[i].umt == umt {
            assert(held(st.reservations, umt));
        }
    }
    assert forall|u: u8| #[trigger] passed(st.next_umt, umt, u) implies exists|i: u32| #[trigger]
        st.reservations.contains_key(i) && st.reservations[i].umt == u by {
        let j = lemma_round(st.next_umt, k, u);
        assert(held(st.reservations, candidate(st.next_umt, j)));
    }
    let n = st.next_umt - 4 + k;
    assert((n + 1) % 59 == if n % 59 == 58 {
        0
    } else {
        n % 59 + 1
    });
}

/// A terminal that has no reservation is refused while 56 are held, and nothing changes.
pub proof fn law_reservation_refused(st: PdchView, issi: u32, nsapi: u8, now: TdmaTime)
    requires
        !st.reservations.contains_key(issi),
        st.reservations.len() >= 56,
    ensures
        reserve_result(st, issi) is None,
        after_reserve(st, issi, nsapi, now) == st,
{
}

/// Activity of a terminal, and a request of one that has a reservation, makes its reservation
/// count as used now and changes nothing else. Activity of a terminal without one changes
/// nothing.
pub proof fn law_activity_is_noted(st: PdchView, issi: u32, nsapi: u8, now: TdmaTime, i: u32)
    ensures
        ({
            let t = after_touch(st, issi, now);
            &&& t == (PdchView { reservations: t.reservations, ..st })
            &&& t.reservations.contains_key(i) <==> st.reservations.contains_key(i)
            &&& st.reservations.contains_key(i) ==> {
                let (a, b) = (st.reservations[i], t.reservations[i]);
                &&& b.issi == a.issi && b.nsapi == a.nsapi && b.reserved_at == a.reserved_at
                    && b.umt == a.umt
                &&& b.last_used_at == if i == issi {
                    now
                } else {
                    a.last_used_at
                }
            }
            &&& st.reservations.contains_key(issi) ==> after_reserve(st, issi, nsapi, now) == t
                && reserve_result(st, issi) == Some(false)
        }),
{
}

/// A reservation lives on exactly if its last use lies fewer than the configured number of whole
/// frames, of four timeslots each, away from now. What lives on is not changed, and nothing else
/// is.
pub proof fn law_idle_reservations_end(st: PdchView, now: TdmaTime, i: u32)
    ensures
        ({
            let t = after_expire(st, now);
            let d = now.slot_index() - st.reservations[i].last_used_at.slot_index();
            let limit = 4 * st.idle_release_frames;
            &&& t == (PdchView { reservations: t.reservations, ..st })
            &&& t.reservations.contains_key(i) <==> st.reservations.contains_key(i) && -limit < d
                < limit
            &&& t.reservations.contains_key(i) ==> t.reservations[i] == st.reservations[i]
        }),
{
    let d = now.slot_index() - st.reservations[i].last_used_at.slot_index();
    assert(d >= 0 ==> (d / 4 >= st.idle_release_frames <==> d >= 4 * st.idle_release_frames));
    assert(d < 0 ==> ((-d) / 4 >= st.idle_release_frames <==> -d >= 4 * st.idle_release_frames));
}

/// A tick counts each timeslot of the channel, 2 to 4: one more while voice leaves it free, up to
/// the threshold, and nothing once voice has it. The counters of other timeslots stay.
pub proof fn law_free_ticks_counted(m: Map<u8, u8>, free_ts: Seq<u8>, stability_ticks: u8, ts: u8)
    ensures
        ({
            let c = counters_after(m, free_ts, stability_ticks);
            let before = if m.contains_key(ts) {
                m[ts] as int
            } else {
                0int
            };
            &&& 2 <= ts <= 4 ==> c.contains_key(ts)
            &&& 2 <= ts <= 4 && free_ts.contains(ts) && before < stability_ticks ==> c[ts] == before
                + 1
            &&& 2 <= ts <= 4 && free_ts.contains(ts) && before >= stability_ticks ==> c[ts]
                == stability_ticks
            &&& 2 <= ts <= 4 && !free_ts.contains(ts) ==> c[ts] == 0
            &&& !(2 <= ts <= 4) ==> (c.contains_key(ts) <==> m.contains_key(ts)) && (
            m.contains_key(ts) ==> c[ts] == m[ts])
        }),
{
}

/// The timeslots that are announced are those of the list that have been counted up to the
/// threshold, in the order of the list.
pub proof fn law_announced_in_order(m: Map<u8, u8>, free_ts: Seq<u8>, stability_ticks: u8)
    ensures
        stable_ones(m, free_ts, stability_ticks) == free_ts.filter(
            |ts: u8| stability_ticks == 0 || m.contains_key(ts) && m[ts] >= stability_ticks,
        ),
    decreases free_ts.len(),
{
    reveal(Seq::filter);
    if free_ts.len() > 0 {
        law_announced_in_order(m, free_ts.drop_last(), stability_ticks);
    }
}

/// A terminal that gives its reservation up has none, the others keep theirs, and its marker may
/// be handed out again. Nothing else changes.
pub proof fn law_release(st: PdchView, issi: u32, i: u32)
    requires
        st.wf(),
    ensures
        ({
            let t = after_release(st, issi);
            &&& t == (PdchView { reservations: t.reservations, ..st })
            &&& t.reservations.contains_key(i) <==> st.reservations.contains_key(i) && i != issi
            &&& t.reservations.contains_key(i) ==> t.reservations[i] == st.reservations[i]
            &&& st.reservations.contains_key(issi) ==> !held(
                t.reservations,
                st.reservations[issi].umt,
            )
        }),
{
    let t = after_release(st, issi);
    if st.reservations.contains_key(issi) && held(t.reservations, st.reservations[issi].umt) {
        let k = choose|k: u32| #[trigger]
            t.reservations.contains_key(k) && t.reservations[k].umt == st.reservations[issi].umt;
        assert(st.reservations.contains_key(k));
    }
}

/// The primary timeslot is the one that the channel prefers, the first of its list, and there is
/// none exactly while voice has them all.
pub proof fn law_primary_timeslot(st: PdchView)
    ensures
        primary_of(st) is None <==> st.timeslots.len() == 0,
        primary_of(st) matches Some(ts) ==> ts == st.timeslots.first(),
{
}

} // verus!
