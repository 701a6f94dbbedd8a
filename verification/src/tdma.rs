//! TDMA time: hyperframe, multiframe, frame and timeslot.

use vstd::prelude::*;

verus! {

/// Timeslots in one TDMA frame.
pub const SLOTS_PER_FRAME: i32 = 4;

/// Timeslots in one multiframe (18 frames).
pub const SLOTS_PER_MULTIFRAME: i32 = 72;

/// Timeslots in one hyperframe (60 multiframes).
pub const SLOTS_PER_HYPERFRAME: i32 = 4320;

/// Timeslots after which the 16-bit hyperframe counter wraps.
pub const SLOTS_PER_CYCLE: i32 = 283115520;

/// A point in TDMA time. Multiframe, frame and timeslot count from one.
#[derive(Debug, Clone, Copy, PartialEq, Eq, Structural)]
pub struct TdmaTime {
    pub h: u16,
    pub m: u8,
    pub f: u8,
    pub t: u8,
}

/// The time at slot `k` of the hyperframe cycle.
pub open spec fn cycle_time(k: int) -> TdmaTime {
    TdmaTime {
        h: (k / 4320) as u16,
        m: ((k % 4320) / 72 + 1) as u8,
        f: ((k % 72) / 4 + 1) as u8,
        t: (k % 4 + 1) as u8,
    }
}

/// The time whose slot index is `i`, counted modulo the hyperframe cycle.
pub open spec fn time_at(i: int) -> TdmaTime {
    cycle_time(i % 283115520)
}

/// True when a timer of `timeout` slots that was started at `start` has run out
/// at `now`. A start that lies in the future counts as run out.
pub open spec fn elapsed_spec(now: TdmaTime, start: TdmaTime, timeout: u32) -> bool {
    let d = now.slot_index() - start.slot_index();
    d < 0 || d >= timeout
}

/// See [`elapsed_spec`].
pub fn elapsed(now: TdmaTime, start: TdmaTime, timeout: u32) -> (r: bool)
    ensures
        r == elapsed_spec(now, start, timeout),
{
    let d: i32 = now.diff(start);
    d < 0 || d as u32 >= timeout
}

impl TdmaTime {
    /// Distance in timeslots from the start of hyperframe 0.
    pub open spec fn slot_index(self) -> int {
        self.h * 4320 + (self.m - 1) * 72 + (self.f - 1) * 4 + (self.t - 1)
    }

    /// Every counter lies in its range.
    pub open spec fn wf(self) -> bool {
        1 <= self.m <= 60 && 1 <= self.f <= 18 && 1 <= self.t <= 4
    }

    /// See [`TdmaTime::slot_index`].
    pub fn to_index(self) -> (r: i32)
        ensures
            r == self.slot_index(),
    {
        self.h as i32 * 4320 + (self.m as i32 - 1) * 72 + (self.f as i32 - 1) * 4 + (self.t as i32
            - 1)
    }

    /// The time at slot `i` of the cycle.
    fn from_cycle_index(i: i32) -> (r: TdmaTime)
        requires
            0 <= i < SLOTS_PER_CYCLE,
        ensures
            r == cycle_time(i as int),
            r.wf(),
    {
        TdmaTime {
            h: (i / 4320) as u16,
            m: ((i % 4320) / 72 + 1) as u8,
            f: ((i % 72) / 4 + 1) as u8,
            t: (i % 4 + 1) as u8,
        }
    }

    /// Timeslots from `other` to `self`; negative when `self` is the earlier one.
    pub fn diff(self, other: TdmaTime) -> (r: i32)
        ensures
            r == self.slot_index() - other.slot_index(),
    {
        self.to_index() - other.to_index()
    }

    /// The time `n` timeslots later (earlier for a negative `n`).
    pub fn add_timeslots(self, n: i32) -> (r: TdmaTime)
        ensures
            r == time_at(self.slot_index() + n),
            r.wf(),
    {
        let cycle: i64 = SLOTS_PER_CYCLE as i64;
        let sum: i64 = self.to_index() as i64 + n as i64;
        let mut k: i64 = sum % cycle;
        if k < 0 {
            k = k + cycle;
        }
        assert(k == (self.slot_index() + n) % 283115520);
        TdmaTime::from_cycle_index(k as i32)
    }

    /// The first time at or after `self` that falls on timeslot `t`.
    pub fn forward_to_timeslot(self, t: u8) -> (r: TdmaTime)
        requires
            1 <= t <= 4,
            self.wf(),
        ensures
            r == self.forward_spec(t),
            r.wf(),
            r.t == t,
    {
        let ahead: i32 = (t as i32 + 4 - self.t as i32) % 4;
        proof {
            lemma_cycle_keeps_timeslot(self.slot_index() + ahead);
            assert((self.slot_index() + ahead) % 4 == t - 1);
        }
        self.add_timeslots(ahead)
    }

    /// See [`TdmaTime::forward_to_timeslot`].
    pub open spec fn forward_spec(self, t: u8) -> TdmaTime {
        time_at(self.slot_index() + (t + 4 - self.t) % 4)
    }
}

impl Default for TdmaTime {
    fn default() -> (r: TdmaTime)
        ensures
            r == (TdmaTime { h: 0, m: 1, f: 1, t: 1 }),
    {
        TdmaTime { h: 0, m: 1, f: 1, t: 1 }
    }
}

/// A well-formed time is the time at its own slot index.
pub proof fn lemma_time_at_slot_index(x: TdmaTime)
    requires
        x.wf(),
    ensures
        time_at(x.slot_index()) == x,
{
    let a = x.slot_index();
    let in_frame = x.t - 1;
    let in_multiframe = (x.f - 1) * 4 + in_frame;
    let in_hyperframe = (x.m - 1) * 72 + in_multiframe;
    assert(a % 283115520 == a);
    assert(a == 4320 * x.h + in_hyperframe && a / 4320 == x.h && a % 4320 == in_hyperframe);
    assert(in_hyperframe / 72 == x.m - 1);
    assert(a == 72 * (60 * x.h + x.m - 1) + in_multiframe && a % 72 == in_multiframe);
    assert(in_multiframe / 4 == x.f - 1);
    assert(a == 4 * (18 * (60 * x.h + x.m - 1) + x.f - 1) + in_frame && a % 4 == in_frame);
}

/// The time at slot `i` is well formed and lies at slot `i` of the cycle.
pub proof fn lemma_slot_index_time_at(i: int)
    ensures
        time_at(i).wf(),
        time_at(i).slot_index() == i % 283115520,
{
    lemma_cycle_time(i % 283115520);
}

/// A slot of the cycle, taken apart and put together again.
proof fn lemma_cycle_time(k: int)
    requires
        0 <= k < 283115520,
    ensures
        cycle_time(k).wf(),
        cycle_time(k).slot_index() == k,
{
    let h = k / 4320;
    let r = k % 4320;
    let m = r / 72;
    let q = r % 72;
    assert(k == 4320 * h + r && 0 <= r < 4320 && 0 <= h < 65536);
    assert(r == 72 * m + q && 0 <= q < 72 && 0 <= m < 60);
    assert(k % 72 == q) by {
        vstd::arithmetic::div_mod::lemma_mod_mod(k, 72, 60);
    }
    assert(k % 4 == q % 4) by {
        vstd::arithmetic::div_mod::lemma_mod_mod(k, 4, 18);
    }
    assert(q == 4 * (q / 4) + q % 4 && 0 <= q / 4 < 18);
}

/// The cycle is a whole number of frames.
proof fn lemma_cycle_keeps_timeslot(i: int)
    ensures
        (i % 283115520) % 4 == i % 4,
{
    vstd::arithmetic::div_mod::lemma_mod_mod(i, 4, 70778880);
}

/// Going `n` on from the remainder of `a + n`, backwards, leads to `a` again.
proof fn lemma_step_back(a: int, n: int)
    ensures
        ((a + n) % 283115520 - n) % 283115520 == a % 283115520,
{
    vstd::arithmetic::div_mod::lemma_sub_mod_noop((a + n) % 283115520, n, 283115520);
    vstd::arithmetic::div_mod::lemma_mod_twice(a + n, 283115520);
    vstd::arithmetic::div_mod::lemma_sub_mod_noop(a + n, n, 283115520);
}

/// Steps forward and back cancel out.
pub proof fn law_steps_forward_and_back_cancel(x: TdmaTime, n: int)
    requires
        x.wf(),
    ensures
        time_at(time_at(x.slot_index() + n).slot_index() - n) == x,
{
    lemma_slot_index_time_at(x.slot_index() + n);
    lemma_step_back(x.slot_index(), n);
    lemma_time_at_slot_index(x);
}

/// Going forward to a timeslot leads to that timeslot, in less than a frame, and nowhere if it
/// is that timeslot already.
pub proof fn law_forward_to_timeslot(x: TdmaTime, t: u8)
    requires
        x.wf(),
        1 <= t <= 4,
    ensures
        x.forward_spec(t).wf(),
        x.forward_spec(t).t == t,
        exists|k: int| 0 <= k < 4 && x.forward_spec(t) == #[trigger] time_at(x.slot_index() + k),
        x.t == t ==> x.forward_spec(t) == x,
{
    let k = (t + 4 - x.t) % 4;
    let i = x.slot_index() + k;
    lemma_slot_index_time_at(i);
    lemma_cycle_keeps_timeslot(i);
    assert(i % 4 == t - 1);
    assert(x.forward_spec(t) == time_at(x.slot_index() + k));
    lemma_time_at_slot_index(x);
}

/// A frame has 4 timeslots, a multiframe 18 frames and a hyperframe 60 multiframes: each
/// counter steps when the one below it starts over.
pub proof fn law_next_slot(x: TdmaTime)
    requires
        x.wf(),
    ensures
        ({
            let y = time_at(x.slot_index() + 1);
            let new_frame = x.t == 4;
            let new_multiframe = new_frame && x.f == 18;
            let new_hyperframe = new_multiframe && x.m == 60;
            &&& y.wf()
            &&& y.t == (if new_frame {
                1
            } else {
                x.t + 1
            })
            &&& y.f == (if new_multiframe {
                1
            } else if new_frame {
                x.f + 1
            } else {
                x.f as int
            })
            &&& y.m == (if new_hyperframe {
                1
            } else if new_multiframe {
                x.m + 1
            } else {
                x.m as int
            })
            &&& y.h == (if new_hyperframe {
                if x.h == 65535 {
                    0
                } else {
                    x.h + 1
                }
            } else {
                x.h as int
            })
        }),
{
    let i = x.slot_index() + 1;
    let new_frame = x.t == 4;
    let new_multiframe = new_frame && x.f == 18;
    let new_hyperframe = new_multiframe && x.m == 60;
    let t: u8 = if new_frame {
        1
    } else {
        (x.t + 1) as u8
    };
    let f: u8 = if new_multiframe {
        1
    } else if new_frame {
        (x.f + 1) as u8
    } else {
        x.f
    };
    let m: u8 = if new_hyperframe {
        1
    } else if new_multiframe {
        (x.m + 1) as u8
    } else {
        x.m
    };
    let h: u16 = if new_hyperframe {
        if x.h == 65535 {
            0
        } else {
            (x.h + 1) as u16
        }
    } else {
        x.h
    };
    let y = TdmaTime { h, m, f, t };
    lemma_time_at_slot_index(y);
    if x.h == 65535 && new_hyperframe {
        assert(i == 283115520);
        assert(y.slot_index() == 0);
    } else {
        assert(y.slot_index() == i);
    }
}

} // verus!
