use std::collections::VecDeque;
use vstd::prelude::*;

verus! {

/// Nanoseconds in one minute.
pub const MINUTE_NANOS: u64 = 60_000_000_000;

/// Nanoseconds in one hour: the length of the trailing window.
pub const HOUR_NANOS: u64 = 3_600_000_000_000;

/// Minutes in the trailing window: the divisor that turns an hourly count into
/// a per-minute rate.
pub const MINUTES_IN_HOUR: u64 = 60;

/// A timestamp has left the window ending at `now` once a whole hour has passed
/// since it was taken.
pub open spec fn is_stale(ts: u64, now: u64) -> bool {
    ts + HOUR_NANOS <= now
}

/// Length of the longest prefix of `s` made of stale timestamps.
pub open spec fn stale_prefix(s: Seq<u64>, now: u64) -> nat
    decreases s.len(),
{
    if s.len() == 0 {
        0
    } else if is_stale(s[0], now) {
        1 + stale_prefix(s.drop_first(), now)
    } else {
        0
    }
}

/// What a window holds: its recent timestamps (oldest first), the number of
/// occurrences ever recorded, and the time of the first one.
pub struct WindowModel {
    pub recent: Seq<u64>,
    pub total: nat,
    pub first_seen: u64,
}

/// A window created at `now`, before anything is recorded in it.
pub open spec fn fresh_window(now: u64) -> WindowModel {
    WindowModel { recent: Seq::empty(), total: 0, first_seen: now }
}

/// The window after one occurrence at `now`: the stale prefix is dropped,
/// `now` is appended and the lifetime count grows by one.
pub open spec fn recorded(w: WindowModel, now: u64) -> WindowModel {
    WindowModel {
        recent: w.recent.skip(stale_prefix(w.recent, now) as int).push(now),
        total: w.total + 1,
        first_seen: w.first_seen,
    }
}

/// Occurrences counted in the hour ending at `now`: the lifetime count less
/// the timestamps at the front of the window that have gone stale.
pub open spec fn hourly_count(w: WindowModel, now: u64) -> int {
    w.total - stale_prefix(w.recent, now)
}

/// Whole minutes from the first occurrence to `now`, zero if `now` is earlier.
pub open spec fn lifetime_minutes(w: WindowModel, now: u64) -> int {
    if now >= w.first_seen {
        (now - w.first_seen) / (MINUTE_NANOS as int)
    } else {
        0
    }
}

pub proof fn lemma_stale_prefix_bound(s: Seq<u64>, now: u64)
    ensures
        stale_prefix(s, now) <= s.len(),
        forall|i: int| 0 <= i < stale_prefix(s, now) ==> is_stale(#[trigger] s[i], now),
        stale_prefix(s, now) < s.len() ==> !is_stale(s[stale_prefix(s, now) as int], now),
    decreases s.len(),
{
    if s.len() > 0 && is_stale(s[0], now) {
        lemma_stale_prefix_bound(s.drop_first(), now);
        assert forall|i: int| 0 <= i < stale_prefix(s, now) implies is_stale(#[trigger] s[i], now) by {
            if i > 0 {
                assert(s[i] == s.drop_first()[i - 1]);
            }
        }
    }
}

/// The timestamps recorded for one event name.
pub struct HourlyStat {
    curr_hour: VecDeque<u64>,
    total_count: u64,
    first_timestamp: u64,
}

impl View for HourlyStat {
    type V = WindowModel;

    closed spec fn view(&self) -> WindowModel {
        WindowModel {
            recent: self.curr_hour@,
            total: self.total_count as nat,
            first_seen: self.first_timestamp,
        }
    }
}

impl HourlyStat {
    /// Every timestamp in the window was counted when it was recorded.
    pub open spec fn wf(&self) -> bool {
        self@.recent.len() <= self@.total
    }

    pub fn with_timestamp(ts: u64) -> (r: Self)
        ensures
            r@ == fresh_window(ts),
            r.wf(),
    {
        HourlyStat { curr_hour: VecDeque::new(), total_count: 0, first_timestamp: ts }
    }

    pub fn total_count(&self) -> (r: u64)
        ensures
            r == self@.total,
    {
        self.total_count
    }

    pub fn first_timestamp(&self) -> (r: u64)
        ensures
            r == self@.first_seen,
    {
        self.first_timestamp
    }

    /// Counts the stale timestamps at the front of the window, without
    /// removing them.
    pub fn stale_count(&self, now: u64) -> (r: usize)
        ensures
            r == stale_prefix(self@.recent, now),
    {
        proof {
            lemma_stale_prefix_bound(self@.recent, now);
        }
        let len = self.curr_hour.len();
        let mut i: usize = 0;
        while i < len
            invariant
                len == self@.recent.len(),
                i <= stale_prefix(self@.recent, now),
                stale_prefix(self@.recent, now) <= len,
                forall|j: int|
                    0 <= j < stale_prefix(self@.recent, now) ==> is_stale(
                        #[trigger] self@.recent[j],
                        now,
                    ),
                stale_prefix(self@.recent, now) < len ==> !is_stale(
                    self@.recent[stale_prefix(self@.recent, now) as int],
                    now,
                ),
            decreases len - i,
        {
            let ts = self.curr_hour[i];
            if now >= HOUR_NANOS && ts <= now - HOUR_NANOS {
                i = i + 1;
            } else {
                return i;
            }
        }
        i
    }

    /// Occurrences in the hour ending at `now`, by the lifetime count less the
    /// stale prefix.
    pub fn hourly_count(&self, now: u64) -> (r: u64)
        requires
            self.wf(),
        ensures
            r == hourly_count(self@, now),
    {
        let stale = self.stale_count(now);
        proof {
            lemma_stale_prefix_bound(self@.recent, now);
        }
        self.total_count - stale as u64
    }

    /// Whole minutes from the first occurrence to `now`.
    pub fn lifetime_minutes(&self, now: u64) -> (r: u64)
        ensures
            r == lifetime_minutes(self@, now),
    {
        if now >= self.first_timestamp {
            (now - self.first_timestamp) / MINUTE_NANOS
        } else {
            0
        }
    }

    /// Records one occurrence at `now`: drops the stale prefix, appends `now`
    /// and counts the occurrence.
    pub fn record(&mut self, now: u64)
        requires
            old(self).wf(),
            old(self)@.total < u64::MAX,
        ensures
            final(self).wf(),
            final(self)@ == recorded(old(self)@, now),
    {
        let ghost s0 = self.curr_hour@;
        proof {
            lemma_stale_prefix_bound(s0, now);
        }
        let ghost k = stale_prefix(s0, now) as int;
        let n = self.curr_hour.len();
        let mut removed: usize = 0;
        while self.curr_hour.len() > 0
            invariant
                s0.len() == n,
                removed <= k,
                k <= s0.len(),
                self.curr_hour@ == s0.skip(removed as int),
                self.total_count == old(self).total_count,
                self.first_timestamp == old(self).first_timestamp,
                forall|j: int| 0 <= j < k ==> is_stale(#[trigger] s0[j], now),
                k < s0.len() ==> !is_stale(s0[k], now),
            ensures
                removed == k,
                self.curr_hour@ == s0.skip(k),
            decreases self.curr_hour@.len(),
        {
            let ts = self.curr_hour[0];
            assert(s0[removed as int] == ts);
            if now >= HOUR_NANOS && ts <= now - HOUR_NANOS {
                self.curr_hour.pop_front();
                removed = removed + 1;
                assert(self.curr_hour@ =~= s0.skip(removed as int));
            } else {
                break;
            }
        }
        self.total_count = self.total_count + 1;
        self.curr_hour.push_back(now);
    }
}

} // verus!
