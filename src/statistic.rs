use crate::window::{
    fresh_window, hourly_count, lifetime_minutes, recorded, HourlyStat, WindowModel,
};
use quanta::{Clock, Instant, Mock};
use std::sync::Arc;
use vstd::prelude::*;

verus! {

#[verifier::external_type_specification]
#[verifier::external_body]
pub struct ExClock(Clock);

#[verifier::external_type_specification]
#[verifier::external_body]
pub struct ExInstant(Instant);

#[verifier::external_type_specification]
#[verifier::external_body]
pub struct ExMock(Mock);

/// Relies on quanta::Clock::new: a clock over the fastest monotonic source.
pub assume_specification[ quanta::Clock::new ]() -> quanta::Clock;

/// Relies on quanta::Clock::mock: a clock driven by the returned mock handle.
pub assume_specification[ quanta::Clock::mock ]() -> (quanta::Clock, std::sync::Arc<
    quanta::Mock,
>);

/// Relies on quanta::Clock::now: the clock's current instant. Nothing is
/// promised of its value.
pub assume_specification[ quanta::Clock::now ](clock: &quanta::Clock) -> quanta::Instant;

/// Relies on quanta::Instant::duration_since: nanoseconds from `origin` to
/// `now`, zero when `origin` is later. Nothing is promised of the value.
#[verifier::external_body]
fn nanos_since(now: Instant, origin: Instant) -> u64 {
    now.duration_since(origin).as_nanos() as u64
}

/// Hourly count of `name` in the table `m` at `now`: zero for a name never
/// recorded.
pub open spec fn count_in(m: Map<Seq<char>, WindowModel>, name: Seq<char>, now: u64) -> int {
    if m.contains_key(name) {
        hourly_count(m[name], now)
    } else {
        0
    }
}

/// The table `m` after one occurrence of `name` at `now`; a name seen for the
/// first time gets a window first seen at `now`.
pub open spec fn record_in(
    m: Map<Seq<char>, WindowModel>,
    name: Seq<char>,
    now: u64,
) -> Map<Seq<char>, WindowModel> {
    let w = if m.contains_key(name) {
        m[name]
    } else {
        fresh_window(now)
    };
    m.insert(name, recorded(w, now))
}

/// One more occurrence of `name` still fits the lifetime counter.
pub open spec fn can_record(m: Map<Seq<char>, WindowModel>, name: Seq<char>) -> bool {
    m.contains_key(name) ==> m[name].total < u64::MAX
}

/// `r` lists each name of `m` exactly once, each with its hourly count at
/// `now`.
pub open spec fn counts_listed(
    m: Map<Seq<char>, WindowModel>,
    r: Seq<(String, u64)>,
    now: u64,
) -> bool {
    &&& forall|i: int, j: int| 0 <= i < j < r.len() ==> #[trigger] r[i].0@ != #[trigger] r[j].0@
    &&& forall|k: Seq<char>| m.contains_key(k) <==> exists|i: int| 0 <= i < r.len() && #[trigger] r[i].0@ == k
    &&& forall|i: int| 0 <= i < r.len() ==> #[trigger] r[i].1 == count_in(m, r[i].0@, now)
}

/// `r` lists each name of `m` exactly once, each with its lifetime count and
/// the whole minutes from its first occurrence to `now`.
pub open spec fn lifetimes_listed(
    m: Map<Seq<char>, WindowModel>,
    r: Seq<(String, u64, u64)>,
    now: u64,
) -> bool {
    &&& forall|i: int, j: int| 0 <= i < j < r.len() ==> #[trigger] r[i].0@ != #[trigger] r[j].0@
    &&& forall|k: Seq<char>| m.contains_key(k) <==> exists|i: int| 0 <= i < r.len() && #[trigger] r[i].0@ == k
    &&& forall|i: int|
        0 <= i < r.len() ==> {
            &&& #[trigger] r[i].1 == m[r[i].0@].total
            &&& r[i].2 == lifetime_minutes(m[r[i].0@], now)
        }
}

/// Rate estimator: for each event name, the timestamps of its occurrences in
/// the trailing hour, read from a monotonic clock.
pub struct HourlyEventStatistic {
    names: Vec<String>,
    stats: Vec<HourlyStat>,
    clock: Clock,
    origin: Instant,
}

impl View for HourlyEventStatistic {
    type V = Map<Seq<char>, WindowModel>;

    closed spec fn view(&self) -> Map<Seq<char>, WindowModel> {
        Map::new(|k: Seq<char>| self.has(k), |k: Seq<char>| self.stats@[self.index_of(k)]@)
    }
}

impl HourlyEventStatistic {
    closed spec fn has(&self, k: Seq<char>) -> bool {
        exists|i: int| 0 <= i < self.names@.len() && #[trigger] self.names@[i]@ == k
    }

    closed spec fn index_of(&self, k: Seq<char>) -> int {
        choose|i: int| 0 <= i < self.names@.len() && #[trigger] self.names@[i]@ == k
    }

    /// Names are unique, each with one well-formed window.
    pub closed spec fn wf(&self) -> bool {
        &&& self.names@.len() == self.stats@.len()
        &&& forall|i: int, j: int|
            0 <= i < j < self.names@.len() ==> #[trigger] self.names@[i]@ != #[trigger] self.names@[j]@
        &&& forall|i: int| 0 <= i < self.stats@.len() ==> #[trigger] self.stats@[i].wf()
    }

    proof fn lemma_index_of(&self, i: int)
        requires
            self.wf(),
            0 <= i < self.names@.len(),
        ensures
            self@.contains_key(self.names@[i]@),
            self.index_of(self.names@[i]@) == i,
            self@[self.names@[i]@] == self.stats@[i]@,
    {
        let k = self.names@[i]@;
        assert(self.has(k));
        let j = self.index_of(k);
        if j < i {
            assert(self.names@[j]@ != self.names@[i]@);
        } else if j > i {
            assert(self.names@[i]@ != self.names@[j]@);
        }
    }

    proof fn lemma_windows_wf(&self, k: Seq<char>)
        requires
            self.wf(),
            self@.contains_key(k),
        ensures
            self@[k].recent.len() <= self@[k].total,
    {
        assert(self.has(k));
        let i = self.index_of(k);
        assert(self.stats@[i].wf());
    }

    fn from_clock(clock: Clock) -> (r: Self)
        ensures
            r.wf(),
            r@ == Map::<Seq<char>, WindowModel>::empty(),
    {
        let origin = clock.now();
        let r = HourlyEventStatistic { names: Vec::new(), stats: Vec::new(), clock, origin };
        assert(r@ =~= Map::<Seq<char>, WindowModel>::empty());
        r
    }

    /// An empty estimator on a real monotonic clock.
    pub fn new() -> (r: Self)
        ensures
            r.wf(),
            r@ == Map::<Seq<char>, WindowModel>::empty(),
    {
        HourlyEventStatistic::from_clock(Clock::new())
    }

    /// An empty estimator on a mocked clock, with the handle that moves it.
    pub fn with_mocked_clock() -> (r: (Self, Arc<Mock>))
        ensures
            r.0.wf(),
            r.0@ == Map::<Seq<char>, WindowModel>::empty(),
    {
        let (clock, mock) = Clock::mock();
        (HourlyEventStatistic::from_clock(clock), mock)
    }

    /// Nanoseconds on the clock since the estimator was created.
    fn now_nanos(&self) -> u64 {
        let now = self.clock.now();
        nanos_since(now, self.origin)
    }

    fn find(&self, name: &String) -> (r: Option<usize>)
        requires
            self.wf(),
        ensures
            match r {
                Some(i) => i < self.names@.len() && self.names@[i as int]@ == name@,
                None => !self@.contains_key(name@),
            },
    {
        let mut i: usize = 0;
        while i < self.names.len()
            invariant
                self.wf(),
                i <= self.names@.len(),
                forall|j: int| 0 <= j < i ==> #[trigger] self.names@[j]@ != name@,
            decreases self.names@.len() - i,
        {
            if self.names[i] == *name {
                return Some(i);
            }
            i = i + 1;
        }
        None
    }

    /// Records one occurrence of `name` at `now`: its window drops the stale
    /// prefix and takes `now`; a name seen for the first time gets a window
    /// first seen at `now`.
    pub fn record_at(&mut self, name: &str, now: u64)
        requires
            old(self).wf(),
            can_record(old(self)@, name@),
        ensures
            final(self).wf(),
            final(self)@ == record_in(old(self)@, name@, now),
    {
        let key = name.to_string();
        proof {
            vstd::string::to_string_from_display_ensures_for_str(name, key);
        }
        match self.find(&key) {
            Some(i) => {
                proof {
                    self.lemma_index_of(i as int);
                    self.lemma_windows_wf(name@);
                }
                let ghost prev = *self;
                self.stats[i].record(now);
                proof {
                    assert forall|j: int| 0 <= j < self.stats@.len() implies #[trigger] self.stats@[j].wf() by {
                        if j != i {
                            assert(prev.stats@[j].wf());
                        }
                    }
                    assert forall|k: Seq<char>| #[trigger] self@.contains_key(k) implies self@[k]
                        == record_in(prev@, name@, now)[k] by {
                        assert(self.has(k));
                        let j = self.index_of(k);
                        prev.lemma_index_of(j);
                    }
                    assert forall|k: Seq<char>| #[trigger] record_in(prev@, name@, now).contains_key(k)
                        implies self@.contains_key(k) by {
                        if k != name@ {
                            assert(prev.has(k));
                            let j = prev.index_of(k);
                            assert(self.names@[j]@ == k);
                        } else {
                            assert(self.names@[i as int]@ == k);
                        }
                    }
                    assert(self@ =~= record_in(prev@, name@, now));
                }
            },
            None => {
                let ghost prev = *self;
                self.names.push(key);
                self.stats.push(HourlyStat::with_timestamp(now));
                let last = self.stats.len() - 1;
                self.stats[last].record(now);
                proof {
                    assert forall|i: int, j: int|
                        0 <= i < j < self.names@.len() implies #[trigger] self.names@[i]@
                        != #[trigger] self.names@[j]@ by {
                        if j == last {
                            assert(prev.has(prev.names@[i]@));
                        }
                    }
                    assert forall|j: int| 0 <= j < self.stats@.len() implies #[trigger] self.stats@[j].wf() by {
                        if j != last {
                            assert(prev.stats@[j].wf());
                        }
                    }
                    self.lemma_index_of(last as int);
                    assert forall|k: Seq<char>| #[trigger] self@.contains_key(k) implies self@[k]
                        == record_in(prev@, name@, now)[k] by {
                        assert(self.has(k));
                        let j = self.index_of(k);
                        if j != last {
                            prev.lemma_index_of(j);
                        }
                    }
                    assert forall|k: Seq<char>| #[trigger] record_in(prev@, name@, now).contains_key(k)
                        implies self@.contains_key(k) by {
                        if k != name@ {
                            assert(prev.has(k));
                            let j = prev.index_of(k);
                            assert(self.names@[j]@ == k);
                        }
                    }
                    assert(self@ =~= record_in(prev@, name@, now));
                }
            },
        }
    }
    /// Records one occurrence of `name` at the clock's current time.
    pub fn inc_event(&mut self, name: &str)
        requires
            old(self).wf(),
            can_record(old(self)@, name@),
        ensures
            final(self).wf(),
            (exists|now: u64| final(self)@ == record_in(old(self)@, name@, now)),
    {
        let now = self.now_nanos();
        self.record_at(name, now);
    }

    /// Occurrences of `name` ever recorded; zero for a name never recorded.
    pub fn lifetime_count(&self, name: &str) -> (r: u64)
        requires
            self.wf(),
        ensures
            r == (if self@.contains_key(name@) { self@[name@].total } else { 0 }),
    {
        let key = name.to_string();
        proof {
            vstd::string::to_string_from_display_ensures_for_str(name, key);
        }
        match self.find(&key) {
            Some(i) => {
                proof {
                    self.lemma_index_of(i as int);
                }
                self.stats[i].total_count()
            },
            None => 0,
        }
    }

    /// Occurrences of `name` in the hour ending at `now`, as the lifetime
    /// count less the stale timestamps at the front of its window; zero for a
    /// name never recorded. The per-minute rate is this over `MINUTES_IN_HOUR`.
    pub fn hourly_count_at(&self, name: &str, now: u64) -> (r: u64)
        requires
            self.wf(),
        ensures
            r == count_in(self@, name@, now),
    {
        let key = name.to_string();
        proof {
            vstd::string::to_string_from_display_ensures_for_str(name, key);
        }
        match self.find(&key) {
            Some(i) => {
                proof {
                    self.lemma_index_of(i as int);
                    assert(self.stats@[i as int].wf());
                }
                self.stats[i].hourly_count(now)
            },
            None => 0,
        }
    }

    /// Occurrences of `name` in the hour ending at the clock's current time.
    pub fn hourly_count(&self, name: &str) -> (r: u64)
        requires
            self.wf(),
        ensures
            (exists|now: u64| r == count_in(self@, name@, now)),
    {
        let now = self.now_nanos();
        self.hourly_count_at(name, now)
    }

    /// One entry per recorded name, with its hourly count at `now`.
    pub fn all_hourly_counts_at(&self, now: u64) -> (r: Vec<(String, u64)>)
        requires
            self.wf(),
        ensures
            counts_listed(self@, r@, now),
    {
        let mut r: Vec<(String, u64)> = Vec::new();
        let mut i: usize = 0;
        while i < self.names.len()
            invariant
                self.wf(),
                i <= self.names@.len(),
                r@.len() == i,
                forall|j: int| 0 <= j < i ==> #[trigger] r@[j].0@ == self.names@[j]@,
                forall|j: int|
                    0 <= j < i ==> #[trigger] r@[j].1 == count_in(self@, r@[j].0@, now),
            decreases self.names@.len() - i,
        {
            proof {
                self.lemma_index_of(i as int);
                assert(self.stats@[i as int].wf());
            }
            let c = self.stats[i].hourly_count(now);
            r.push((self.names[i].clone(), c));
            i = i + 1;
        }
        proof {
            assert forall|k: Seq<char>| self@.contains_key(k) implies exists|j: int|
                0 <= j < r@.len() && #[trigger] r@[j].0@ == k by {
                assert(self.has(k));
                let j = self.index_of(k);
                assert(r@[j].0@ == k);
            }
            assert forall|k: Seq<char>| (exists|j: int| 0 <= j < r@.len() && #[trigger] r@[j].0@ == k)
                implies self@.contains_key(k) by {
                let j = choose|j: int| 0 <= j < r@.len() && #[trigger] r@[j].0@ == k;
                self.lemma_index_of(j);
            }
        }
        r
    }

    /// One entry per recorded name, with its hourly count at the clock's
    /// current time.
    pub fn all_hourly_counts(&self) -> (r: Vec<(String, u64)>)
        requires
            self.wf(),
        ensures
            (exists|now: u64| #[trigger] counts_listed(self@, r@, now)),
    {
        let now = self.now_nanos();
        self.all_hourly_counts_at(now)
    }

    /// One entry per recorded name with its lifetime count and the whole
    /// minutes from its first occurrence to `now`; the lifetime average rate
    /// is the count over the minutes.
    pub fn lifetime_stats_at(&self, now: u64) -> (r: Vec<(String, u64, u64)>)
        requires
            self.wf(),
        ensures
            lifetimes_listed(self@, r@, now),
    {
        let mut r: Vec<(String, u64, u64)> = Vec::new();
        let mut i: usize = 0;
        while i < self.names.len()
            invariant
                self.wf(),
                i <= self.names@.len(),
                r@.len() == i,
                forall|j: int| 0 <= j < i ==> #[trigger] r@[j].0@ == self.names@[j]@,
                forall|j: int|
                    0 <= j < i ==> {
                        &&& #[trigger] r@[j].1 == self@[r@[j].0@].total
                        &&& r@[j].2 == lifetime_minutes(self@[r@[j].0@], now)
                    },
            decreases self.names@.len() - i,
        {
            proof {
                self.lemma_index_of(i as int);
            }
            let total = self.stats[i].total_count();
            let minutes = self.stats[i].lifetime_minutes(now);
            r.push((self.names[i].clone(), total, minutes));
            i = i + 1;
        }
        proof {
            assert forall|k: Seq<char>| self@.contains_key(k) implies exists|j: int|
                0 <= j < r@.len() && #[trigger] r@[j].0@ == k by {
                assert(self.has(k));
                let j = self.index_of(k);
                assert(r@[j].0@ == k);
            }
            assert forall|k: Seq<char>| (exists|j: int| 0 <= j < r@.len() && #[trigger] r@[j].0@ == k)
                implies self@.contains_key(k) by {
                let j = choose|j: int| 0 <= j < r@.len() && #[trigger] r@[j].0@ == k;
                self.lemma_index_of(j);
            }
        }
        r
    }

    /// Lifetime counts and minutes since first seen, at the clock's current
    /// time.
    pub fn lifetime_stats(&self) -> (r: Vec<(String, u64, u64)>)
        requires
            self.wf(),
        ensures
            (exists|now: u64| #[trigger] lifetimes_listed(self@, r@, now)),
    {
        let now = self.now_nanos();
        self.lifetime_stats_at(now)
    }
}

} // verus!
