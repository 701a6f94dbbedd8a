use tetra_pd::pdch_allocator::{
    PdchAllocator, PDCH_IDLE_RELEASE_FRAMES, PDCH_MAX_RESERVATIONS,
};
use tetra_pd::tdma::TdmaTime;

fn t(h: u16, m: u8, f: u8, ts: u8) -> TdmaTime {
    TdmaTime { h, m, f, t: ts }
}

#[test]
fn reserve_creates_entry() {
    let mut alloc = PdchAllocator::new(PDCH_IDLE_RELEASE_FRAMES);
    let is_new = alloc.reserve(1234, 0, t(0, 1, 1, 1));
    assert_eq!(is_new, Some(true), "first reserve must return Some(true)");
    assert!(alloc.reservations.contains_key(&1234));
    assert_eq!(alloc.reservations[&1234].nsapi, 0);
    assert!((4..=62).contains(&alloc.reservations[&1234].umt));
}

#[test]
fn double_reserve_refreshes_last_used() {
    let mut alloc = PdchAllocator::new(PDCH_IDLE_RELEASE_FRAMES);
    let t0 = t(0, 1, 1, 1);
    let t1 = t(0, 1, 5, 1);
    let first = alloc.reserve(1234, 0, t0);
    let second = alloc.reserve(1234, 0, t1);
    assert_eq!(first, Some(true), "first reserve must be new");
    assert_eq!(second, Some(false), "second reserve must be a refresh");
    assert_eq!(alloc.reservations[&1234].last_used_at, t1);
    assert_eq!(alloc.reservations[&1234].reserved_at, t0);
}

#[test]
fn release_removes_entry() {
    let mut alloc = PdchAllocator::new(PDCH_IDLE_RELEASE_FRAMES);
    alloc.reserve(1234, 0, t(0, 1, 1, 1));
    alloc.release(1234);
    assert!(!alloc.reservations.contains_key(&1234));
}

#[test]
fn expire_idle_removes_stale_reservation() {
    let mut alloc = PdchAllocator::new(18);
    let start = t(0, 1, 1, 1);
    alloc.reserve(1234, 0, start);
    let now = start.add_timeslots(18 * 4);
    let released = alloc.expire_idle(now);
    assert!(released.contains(&1234), "stale reservation must be released");
    assert!(!alloc.reservations.contains_key(&1234));
}

#[test]
fn expire_idle_keeps_active_reservation() {
    let mut alloc = PdchAllocator::new(18);
    let start = t(0, 1, 1, 1);
    alloc.reserve(1234, 0, start);
    let now = start.add_timeslots(5 * 4);
    let released = alloc.expire_idle(now);
    assert!(released.is_empty());
    assert!(alloc.reservations.contains_key(&1234));
}

#[test]
fn reserve_up_to_cap_succeeds() {
    let mut alloc = PdchAllocator::new(PDCH_IDLE_RELEASE_FRAMES);
    let now = t(0, 1, 1, 1);
    for i in 0..PDCH_MAX_RESERVATIONS as u32 {
        let r = alloc.reserve(1_000_000 + i, 0, now);
        assert_eq!(r, Some(true), "reserve #{i} must succeed");
    }
    assert_eq!(alloc.reservations.len(), PDCH_MAX_RESERVATIONS);
}

#[test]
fn reserve_beyond_cap_returns_none() {
    let mut alloc = PdchAllocator::new(PDCH_IDLE_RELEASE_FRAMES);
    let now = t(0, 1, 1, 1);
    for i in 0..PDCH_MAX_RESERVATIONS as u32 {
        assert_eq!(alloc.reserve(1_000_000 + i, 0, now), Some(true));
    }
    let over = alloc.reserve(9_999_999, 0, now);
    assert_eq!(over, None, "reservation past cap must be rejected");
    assert_eq!(alloc.reservations.len(), PDCH_MAX_RESERVATIONS);

    let refresh = alloc.reserve(1_000_000, 0, now);
    assert_eq!(refresh, Some(false));
}

#[test]
fn release_then_reserve_at_cap_succeeds() {
    let mut alloc = PdchAllocator::new(PDCH_IDLE_RELEASE_FRAMES);
    let now = t(0, 1, 1, 1);
    for i in 0..PDCH_MAX_RESERVATIONS as u32 {
        assert_eq!(alloc.reserve(1_000_000 + i, 0, now), Some(true));
    }
    assert_eq!(alloc.reserve(7_777_777, 0, now), None);
    alloc.release(1_000_000);
    assert_eq!(alloc.reserve(7_777_777, 0, now), Some(true));
    assert_eq!(alloc.reservations.len(), PDCH_MAX_RESERVATIONS);
}

#[test]
fn umt_never_collides_between_live_reservations() {
    let mut alloc = PdchAllocator::new(PDCH_IDLE_RELEASE_FRAMES);
    let now = t(0, 1, 1, 1);
    for i in 0..PDCH_MAX_RESERVATIONS as u32 {
        assert_eq!(alloc.reserve(1_000_000 + i, 0, now), Some(true));
    }
    let mut seen = std::collections::HashSet::new();
    for r in alloc.reservations.values() {
        assert!(
            (4..=62).contains(&r.umt),
            "umt {} out of spec [4,62]",
            r.umt
        );
        assert!(seen.insert(r.umt), "duplicate UMt {} across live reservations", r.umt);
    }
}

#[test]
fn umt_reuse_after_release_does_not_collide_with_live() {
    let mut alloc = PdchAllocator::new(PDCH_IDLE_RELEASE_FRAMES);
    let now = t(0, 1, 1, 1);
    for i in 0..30 {
        alloc.reserve(2_000_000 + i, 0, now);
    }
    for i in [3, 7, 11, 19, 25] {
        alloc.release(2_000_000 + i);
    }
    let existing = alloc.reservations.len();
    for i in 0..(PDCH_MAX_RESERVATIONS - existing) as u32 {
        let r = alloc.reserve(3_000_000 + i, 0, now);
        assert_eq!(r, Some(true), "refill reserve #{i} must succeed");
    }
    let mut seen = std::collections::HashSet::new();
    for r in alloc.reservations.values() {
        assert!(seen.insert(r.umt), "duplicate UMt {} across live reservations", r.umt);
    }
}

#[test]
fn current_timeslots_ordered_ts4_first() {
    let mut alloc = PdchAllocator::new(PDCH_IDLE_RELEASE_FRAMES);
    alloc.current_timeslots = vec![4, 3];
    assert_eq!(alloc.primary_timeslot(), Some(4), "primary must be TS4 (first in preference order)");
    alloc.current_timeslots = vec![3];
    assert_eq!(alloc.primary_timeslot(), Some(3));
    alloc.current_timeslots.clear();
    assert_eq!(alloc.primary_timeslot(), None);
}

#[test]
fn stability_zero_ticks_returns_free_immediately() {
    let mut alloc = PdchAllocator::new(PDCH_IDLE_RELEASE_FRAMES);
    let out = alloc.tick_stability(&[4, 3, 2], 0);
    assert_eq!(out, vec![4, 3, 2], "K=0 must return every free candidate on tick 1");
}

#[test]
fn stability_debounce_delays_ts_addition_by_k_ticks() {
    let mut alloc = PdchAllocator::new(PDCH_IDLE_RELEASE_FRAMES);
    for i in 1..4 {
        let out = alloc.tick_stability(&[4], 4);
        assert!(out.is_empty(), "tick {i}: TS4 must not be promoted before K ticks");
    }
    let out = alloc.tick_stability(&[4], 4);
    assert_eq!(out, vec![4], "TS4 must be promoted at tick K=4");
}

#[test]
fn stability_resets_on_voice_contention() {
    let mut alloc = PdchAllocator::new(PDCH_IDLE_RELEASE_FRAMES);
    for _ in 0..3 {
        alloc.tick_stability(&[4], 4);
    }
    let out = alloc.tick_stability(&[3], 4);
    assert!(out.is_empty(), "voice contention on TS4 must reset its stability counter");
    assert_eq!(alloc.consec_free_ticks.get(&4).copied(), Some(0));
    for i in 1..4 {
        let out = alloc.tick_stability(&[4], 4);
        assert!(out.is_empty(), "post-reset tick {i}: TS4 must not be promoted before K ticks");
    }
    let out = alloc.tick_stability(&[4], 4);
    assert_eq!(out, vec![4], "TS4 re-admitted at post-reset tick K");
}

#[test]
fn stability_independent_counters_per_ts() {
    let mut alloc = PdchAllocator::new(PDCH_IDLE_RELEASE_FRAMES);
    for _ in 0..3 {
        alloc.tick_stability(&[4], 4);
    }
    let out = alloc.tick_stability(&[4, 3], 4);
    assert_eq!(out, vec![4], "TS4 promoted, TS3 still warming up");
    for _ in 0..2 {
        alloc.tick_stability(&[4, 3], 4);
    }
    let out = alloc.tick_stability(&[4, 3], 4);
    assert_eq!(out, vec![4, 3], "both TS promoted after independent warm-ups");
}

#[test]
fn touch_keeps_a_reservation_and_makes_none() {
    let mut alloc = PdchAllocator::new(18);
    let start = t(0, 1, 1, 1);
    alloc.reserve(1, 0, start);
    let later = start.add_timeslots(17 * 4);
    alloc.touch(1, later);
    alloc.touch(2, later);
    assert_eq!(alloc.reservations.len(), 1);
    assert_eq!(alloc.reservations[&1].last_used_at, later);
    assert!(alloc.expire_idle(later.add_timeslots(17 * 4 + 3)).is_empty());
    assert_eq!(alloc.expire_idle(later.add_timeslots(18 * 4)), vec![1]);
}

#[test]
fn markers_are_handed_out_in_turn() {
    let mut alloc = PdchAllocator::new(PDCH_IDLE_RELEASE_FRAMES);
    let now = t(0, 1, 1, 1);
    for i in 0..10u32 {
        alloc.reserve(i, 0, now);
        assert_eq!(alloc.reservations[&i].umt, 4 + i as u8);
    }
    alloc.release(3);
    alloc.reserve(100, 0, now);
    assert_eq!(alloc.reservations[&100].umt, 14);
}

#[test]
fn markers_wrap_after_62() {
    let mut alloc = PdchAllocator::new(PDCH_IDLE_RELEASE_FRAMES);
    let now = t(0, 1, 1, 1);
    for i in 0..59u32 {
        alloc.reserve(i, 0, now);
        if i > 0 {
            alloc.release(i);
        }
    }
    alloc.reserve(1000, 0, now);
    assert_eq!(alloc.reservations[&0].umt, 4);
    assert_eq!(alloc.reservations[&1000].umt, 5);
}

#[test]
fn reserving_makes_a_reservation() {
    const TEST_ISSI: u32 = 1234;
    let mut alloc = PdchAllocator::new(PDCH_IDLE_RELEASE_FRAMES);
    alloc.reserve(TEST_ISSI, 0, t(0, 1, 1, 1));
    assert!(alloc.reservations.contains_key(&TEST_ISSI));
    assert_eq!(alloc.reservations[&TEST_ISSI].nsapi, 0);
}

#[test]
fn idle_reservation_is_released() {
    const TEST_ISSI: u32 = 5678;
    const TEST_IDLE_FRAMES: u32 = 12;
    let start = t(0, 1, 1, 1);
    let mut alloc = PdchAllocator::new(PDCH_IDLE_RELEASE_FRAMES);
    alloc.idle_release_frames = TEST_IDLE_FRAMES;
    alloc.reserve(TEST_ISSI, 0, start);
    assert!(alloc.reservations.contains_key(&TEST_ISSI), "reservation must exist");
    let idle_timeslots = (TEST_IDLE_FRAMES * 4 + 4) as i32;
    for n in 1..=idle_timeslots {
        alloc.expire_idle(start.add_timeslots(n));
    }
    assert!(
        !alloc.reservations.contains_key(&TEST_ISSI),
        "idle reservation must be released after {TEST_IDLE_FRAMES} frames"
    );
}

#[test]
fn releasing_removes_the_reservation() {
    const TEST_ISSI: u32 = 9999;
    let mut alloc = PdchAllocator::new(PDCH_IDLE_RELEASE_FRAMES);
    alloc.reserve(TEST_ISSI, 0, t(0, 1, 1, 1));
    assert!(alloc.reservations.contains_key(&TEST_ISSI), "pre-condition: reservation must exist");
    alloc.release(TEST_ISSI);
    assert!(!alloc.reservations.contains_key(&TEST_ISSI));
}

#[test]
fn no_timeslot_is_left_when_none_is_free() {
    let mut alloc = PdchAllocator::new(PDCH_IDLE_RELEASE_FRAMES);
    alloc.current_timeslots = alloc.tick_stability(&[4], 0);
    assert_eq!(alloc.primary_timeslot(), Some(4));
    alloc.current_timeslots = alloc.tick_stability(&[], 0);
    assert_eq!(
        alloc.primary_timeslot(),
        None,
        "PDCH must yield when all eligible timeslots (TS2/3/4) are occupied by voice"
    );
}

#[test]
fn counters_stop_at_the_threshold() {
    let mut alloc = PdchAllocator::new(PDCH_IDLE_RELEASE_FRAMES);
    for n in 1..=10u8 {
        alloc.tick_stability(&[4], 4);
        assert_eq!(alloc.consec_free_ticks[&4], n.min(4));
    }
    alloc.tick_stability(&[4], 0);
    assert_eq!(alloc.consec_free_ticks[&4], 0, "with no threshold there is nothing to count");
    let out = alloc.tick_stability(&[4], 2);
    assert!(out.is_empty());
    assert_eq!(alloc.tick_stability(&[4], 2), vec![4]);
}
