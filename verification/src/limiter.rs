//! Fixed-window admission gate: at most `rpm` admissions per window.
//!
//! The limiter is a pure state machine here; the caller owns the clock
//! and the blocking. `acquire` either admits immediately or names the
//! deadline (the end of the current window) before which no further
//! admission is granted.

use vstd::prelude::*;

verus! {

/// Length of one admission window in milliseconds.
pub const WINDOW_MS: u64 = 60_000;

/// What one acquisition attempt decided: admitted now, or blocked until
/// the window boundary.
pub enum Admission {
    Admit,
    WaitUntil { deadline_ms: u64 },
}

/// Fixed-window counter: how many requests the current window admitted,
/// and where that window began. `rpm == 0` disables throttling.
pub struct RateLimiter {
    pub rpm: u64,
    pub count: u64,
    pub window_start_ms: u64,
}

impl RateLimiter {
    /// The admitted count never exceeds the cap while throttling is on.
    pub open spec fn wf(&self) -> bool {
        self.rpm > 0 ==> self.count <= self.rpm
    }

    /// The exact transition of one acquisition at time `now`.
    pub open spec fn spec_acquire(st: RateLimiter, now: u64) -> (RateLimiter, Admission) {
        if st.rpm == 0 {
            (st, Admission::Admit)
        } else {
            let cur = if now >= st.window_start_ms + WINDOW_MS {
                RateLimiter { rpm: st.rpm, count: 0, window_start_ms: now }
            } else {
                st
            };
            if cur.count < cur.rpm {
                (
                    RateLimiter {
                        rpm: cur.rpm,
                        count: (cur.count + 1) as u64,
                        window_start_ms: cur.window_start_ms,
                    },
                    Admission::Admit,
                )
            } else {
                (
                    cur,
                    Admission::WaitUntil {
                        deadline_ms: (cur.window_start_ms + WINDOW_MS) as u64,
                    },
                )
            }
        }
    }

    /// Start unthrottled or with a fresh window at `now`.
    pub fn new(rpm: u64, now_ms: u64) -> (r: RateLimiter)
        ensures
            r == (RateLimiter { rpm, count: 0, window_start_ms: now_ms }),
            r.wf(),
    {
        RateLimiter { rpm, count: 0, window_start_ms: now_ms }
    }

    /// One acquisition attempt at time `now_ms`, exactly as
    /// `spec_acquire` states it: admit and count, or name the window
    /// boundary to wait for. The caller retries after the deadline.
    pub fn acquire(&mut self, now_ms: u64) -> (a: Admission)
        requires
            old(self).wf(),
            old(self).window_start_ms <= now_ms,
            now_ms + WINDOW_MS <= u64::MAX,
        ensures
            *final(self) == Self::spec_acquire(*old(self), now_ms).0,
            a == Self::spec_acquire(*old(self), now_ms).1,
            final(self).wf(),
            final(self).window_start_ms <= now_ms,
            final(self).rpm == old(self).rpm,
            a is WaitUntil ==> *final(self) == *old(self),
    {
        if self.rpm == 0 {
            return Admission::Admit;
        }
        if now_ms - self.window_start_ms >= WINDOW_MS {
            self.count = 0;
            self.window_start_ms = now_ms;
        }
        if self.count < self.rpm {
            self.count = self.count + 1;
            Admission::Admit
        } else {
            Admission::WaitUntil { deadline_ms: self.window_start_ms + WINDOW_MS }
        }
    }
}

/// The outcomes of a series of acquisitions at the given times, oldest
/// first, against one shared limiter.
pub open spec fn spec_acquire_seq(st: RateLimiter, times: Seq<u64>) -> (RateLimiter, Seq<
    Admission,
>)
    decreases times.len(),
{
    if times.len() == 0 {
        (st, Seq::<Admission>::empty())
    } else {
        let prev = spec_acquire_seq(st, times.drop_last());
        let step = RateLimiter::spec_acquire(prev.0, times.last());
        (step.0, prev.1.push(step.1))
    }
}

/// All times fall inside the window that starts at `start`.
pub open spec fn times_within_window(times: Seq<u64>, start: u64) -> bool {
    forall|i: int| 0 <= i < times.len() ==> start <= #[trigger] times[i] < start + WINDOW_MS
}

/// Issuing acquisitions within one window never blocks while the window
/// still has room: with `k` requests already admitted, the next
/// `times.len() <= rpm - k` acquisitions all admit immediately.
pub proof fn lemma_within_cap_never_blocks(st: RateLimiter, times: Seq<u64>)
    requires
        st.rpm > 0,
        st.count + times.len() <= st.rpm,
        times_within_window(times, st.window_start_ms),
    ensures
        ({
            let r = spec_acquire_seq(st, times);
            &&& r.1.len() == times.len()
            &&& forall|i: int| 0 <= i < times.len() ==> r.1[i] is Admit
            &&& r.0.rpm == st.rpm
            &&& r.0.window_start_ms == st.window_start_ms
            &&& r.0.count == st.count + times.len()
        }),
    decreases times.len(),
{
    if times.len() > 0 {
        let head = times.drop_last();
        assert(times_within_window(head, st.window_start_ms));
        lemma_within_cap_never_blocks(st, head);
        let prev = spec_acquire_seq(st, head);
        let t = times.last();
        assert(st.window_start_ms <= t < st.window_start_ms + WINDOW_MS);
        let step = RateLimiter::spec_acquire(prev.0, t);
        assert(step.1 is Admit);
        let r = spec_acquire_seq(st, times);
        assert(r.1 == prev.1.push(step.1));
        assert forall|i: int| 0 <= i < times.len() implies r.1[i] is Admit by {
            if i < head.len() {
                assert(r.1[i] == prev.1[i]);
            } else {
                assert(r.1[i] == step.1);
            }
        }
    }
}

/// Issuing `rpm + 1` acquisitions within one fresh window makes the
/// last caller wait until the window boundary: it observes a wait of
/// exactly the window time that remains at its call.
pub proof fn lemma_over_cap_must_wait(st: RateLimiter, times: Seq<u64>)
    requires
        st.rpm > 0,
        st.count == 0,
        times.len() == st.rpm + 1,
        times_within_window(times, st.window_start_ms),
        st.window_start_ms + WINDOW_MS <= u64::MAX,
    ensures
        ({
            let r = spec_acquire_seq(st, times);
            let last_time = times.last();
            &&& r.1.last() == (Admission::WaitUntil {
                deadline_ms: (st.window_start_ms + WINDOW_MS) as u64,
            })
            &&& (st.window_start_ms + WINDOW_MS) as u64 as int - last_time
                == st.window_start_ms + WINDOW_MS - last_time
            &&& st.window_start_ms + WINDOW_MS - last_time > 0
        }),
{
    let head = times.drop_last();
    assert(times_within_window(head, st.window_start_ms));
    lemma_within_cap_never_blocks(st, head);
    let prev = spec_acquire_seq(st, head);
    let t = times.last();
    assert(st.window_start_ms <= t < st.window_start_ms + WINDOW_MS);
    assert(prev.0.count == st.rpm);
    let step = RateLimiter::spec_acquire(prev.0, t);
    assert(step.1 == (Admission::WaitUntil {
        deadline_ms: (st.window_start_ms + WINDOW_MS) as u64,
    }));
}

} // verus!
