use crate::statistic::{count_in, record_in};
use crate::window::{
    is_stale, lemma_stale_prefix_bound, stale_prefix, WindowModel, HOUR_NANOS, MINUTE_NANOS,
};
use vstd::prelude::*;

verus! {

/// The table after recording `name` at each of `times`, in order.
pub open spec fn record_all(
    m: Map<Seq<char>, WindowModel>,
    name: Seq<char>,
    times: Seq<u64>,
) -> Map<Seq<char>, WindowModel>
    decreases times.len(),
{
    if times.len() == 0 {
        m
    } else {
        record_in(record_all(m, name, times.drop_last()), name, times.last())
    }
}

/// The first `n` minute marks after `t0`: `t0 + M, t0 + 2M, ..., t0 + nM`.
pub open spec fn minute_marks(t0: u64, n: nat) -> Seq<u64> {
    Seq::new(n, |i: int| (t0 + (i + 1) * MINUTE_NANOS) as u64)
}

/// A name that was never recorded has an hourly count of zero, whatever the
/// time; in particular every name has a count of zero in a new estimator.
pub proof fn lemma_unrecorded_name_counts_zero(
    m: Map<Seq<char>, WindowModel>,
    name: Seq<char>,
    now: u64,
)
    requires
        !m.contains_key(name),
    ensures
        count_in(m, name, now) == 0,
        count_in(Map::empty(), name, now) == 0,
{
}

/// Right after an occurrence of `name` is recorded at `t`, its hourly count
/// at `t` is positive.
pub proof fn lemma_recorded_name_counts_now(
    m: Map<Seq<char>, WindowModel>,
    name: Seq<char>,
    t: u64,
)
    ensures
        count_in(record_in(m, name, t), name, t) > 0,
{
    let w = if m.contains_key(name) {
        m[name]
    } else {
        crate::window::fresh_window(t)
    };
    let s = w.recent;
    lemma_stale_prefix_bound(s, t);
    let kept = s.skip(stale_prefix(s, t) as int).push(t);
    if kept.len() > 1 {
        assert(kept[0] == s[stale_prefix(s, t) as int]);
    }
    assert(!is_stale(kept[0], t));
    assert(stale_prefix(kept, t) == 0);
}

/// An event recorded once at `t` is counted once at `t` and not at all one
/// hour later.
pub proof fn lemma_single_event_expires(
    m: Map<Seq<char>, WindowModel>,
    name: Seq<char>,
    t: u64,
)
    requires
        !m.contains_key(name),
        t + HOUR_NANOS <= u64::MAX,
    ensures
        count_in(record_in(m, name, t), name, t) == 1,
        count_in(record_in(m, name, t), name, (t + HOUR_NANOS) as u64) == 0,
{
    let w = record_in(m, name, t)[name];
    assert(w.recent =~= seq![t]);
    assert(w.recent.drop_first() =~= Seq::<u64>::empty());
    assert(stale_prefix(w.recent, t) == 0);
    let later = (t + HOUR_NANOS) as u64;
    assert(is_stale(w.recent[0], later));
    assert(stale_prefix(w.recent.drop_first(), later) == 0);
    assert(stale_prefix(w.recent, later) == 1);
}

/// Recording one name, any number of times, leaves the hourly count of every
/// other name as it was; a name never recorded keeps a count of zero.
pub proof fn lemma_other_names_unchanged(
    m: Map<Seq<char>, WindowModel>,
    a: Seq<char>,
    times: Seq<u64>,
    b: Seq<char>,
    now: u64,
)
    requires
        a != b,
    ensures
        count_in(record_all(m, a, times), b, now) == count_in(m, b, now),
        !m.contains_key(b) ==> count_in(record_all(m, a, times), b, now) == 0,
    decreases times.len(),
{
    if times.len() > 0 {
        lemma_other_names_unchanged(m, a, times.drop_last(), b, now);
    }
}

proof fn lemma_minute_marks_window(
    m: Map<Seq<char>, WindowModel>,
    name: Seq<char>,
    t0: u64,
    n: nat,
)
    requires
        !m.contains_key(name),
        1 <= n <= 60,
        t0 + 61 * MINUTE_NANOS <= u64::MAX,
    ensures
        record_all(m, name, minute_marks(t0, n)).contains_key(name),
        record_all(m, name, minute_marks(t0, n))[name] == (WindowModel {
            recent: minute_marks(t0, n),
            total: n,
            first_seen: (t0 + MINUTE_NANOS) as u64,
        }),
    decreases n,
{
    let marks = minute_marks(t0, n);
    assert(marks.drop_last() =~= minute_marks(t0, (n - 1) as nat));
    if n == 1 {
        assert(record_all(m, name, marks.drop_last()) == m);
        assert(Seq::<u64>::empty().skip(0).push(marks.last()) =~= marks);
    } else {
        lemma_minute_marks_window(m, name, t0, (n - 1) as nat);
        let prev = minute_marks(t0, (n - 1) as nat);
        assert(!is_stale(prev[0], marks.last()));
        assert(stale_prefix(prev, marks.last()) == 0);
        assert(prev.skip(0).push(marks.last()) =~= marks);
    }
}

/// Recording a new name once a minute for sixty minutes gives an hourly count
/// of sixty (one per minute) at the last recording, and the count stays there
/// until the first recording leaves the window a minute later.
pub proof fn lemma_once_a_minute(m: Map<Seq<char>, WindowModel>, name: Seq<char>, t0: u64)
    requires
        !m.contains_key(name),
        t0 + 61 * MINUTE_NANOS <= u64::MAX,
    ensures
        count_in(record_all(m, name, minute_marks(t0, 60)), name, (t0 + 60 * MINUTE_NANOS) as u64)
            == 60,
        count_in(
            record_all(m, name, minute_marks(t0, 60)),
            name,
            (t0 + 61 * MINUTE_NANOS - 1) as u64,
        ) == 60,
        count_in(record_all(m, name, minute_marks(t0, 60)), name, (t0 + 61 * MINUTE_NANOS) as u64)
            == 59,
{
    lemma_minute_marks_window(m, name, t0, 60);
    let marks = minute_marks(t0, 60);
    let last = (t0 + 60 * MINUTE_NANOS) as u64;
    let edge = (t0 + 61 * MINUTE_NANOS - 1) as u64;
    let later = (t0 + 61 * MINUTE_NANOS) as u64;
    assert(!is_stale(marks[0], last));
    assert(!is_stale(marks[0], edge));
    assert(is_stale(marks[0], later));
    assert(marks.drop_first()[0] == marks[1]);
    assert(!is_stale(marks[1], later));
    assert(stale_prefix(marks.drop_first(), later) == 0);
    assert(stale_prefix(marks, later) == 1);
}

} // verus!
