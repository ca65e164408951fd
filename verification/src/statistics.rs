use vstd::prelude::*;

verus! {

/// Progress statistics shared by worker threads: the number of items done,
/// the total time spent on them and the longest single time, in
/// microseconds. Each field is updated by its own atomic read-modify-write.
pub struct Statistics {
    num_done: usize,
    total_time: u64,
    max_time: u64,
}

/// The statistics as plain values: items done, total time, longest time.
pub struct Snapshot {
    pub num_done: usize,
    pub total_time: u64,
    pub max_time: u64,
}

/// The statistics after one item that took `time_taken`: the counters add
/// with wrap-around, as atomic additions do, and the longest time is the
/// larger of the two.
pub open spec fn recorded(s: Snapshot, time_taken: u64) -> Snapshot {
    Snapshot {
        num_done: s.num_done.wrapping_add(1),
        total_time: s.total_time.wrapping_add(time_taken),
        max_time: if time_taken > s.max_time { time_taken } else { s.max_time },
    }
}

impl View for Statistics {
    type V = Snapshot;

    closed spec fn view(&self) -> Snapshot {
        Snapshot { num_done: self.num_done, total_time: self.total_time, max_time: self.max_time }
    }
}

impl Statistics {
    pub fn new() -> (s: Self)
        ensures
            s@ == (Snapshot { num_done: 0, total_time: 0, max_time: 0 }),
    {
        Statistics { num_done: 0, total_time: 0, max_time: 0 }
    }

    /// One atomic add of one to the count of items done (wrapping).
    pub fn add_done(&mut self)
        ensures
            final(self)@ == (Snapshot { num_done: old(self)@.num_done.wrapping_add(1), ..old(self)@ }),
    {
        self.num_done = self.num_done.wrapping_add(1);
    }

    /// One atomic add of `time_taken` to the total time (wrapping).
    pub fn add_time(&mut self, time_taken: u64)
        ensures
            final(self)@ == (Snapshot { total_time: old(self)@.total_time.wrapping_add(time_taken), ..old(self)@ }),
    {
        self.total_time = self.total_time.wrapping_add(time_taken);
    }

    /// One atomic maximum of the longest time with `time_taken`.
    pub fn max_with(&mut self, time_taken: u64)
        ensures
            final(self)@ == (Snapshot {
                max_time: if time_taken > old(self)@.max_time { time_taken } else { old(self)@.max_time },
                ..old(self)@
            }),
    {
        if time_taken > self.max_time {
            self.max_time = time_taken;
        }
    }

    /// Record one finished item that took `time_taken` microseconds: the
    /// three updates, in a row. Each is its own atomic step, so another
    /// thread may read the statistics between them.
    pub fn record(&mut self, time_taken: u64)
        ensures
            final(self)@ == recorded(old(self)@, time_taken),
    {
        self.add_done();
        self.add_time(time_taken);
        self.max_with(time_taken);
    }

    /// The number of items done.
    pub fn num_done(&self) -> (n: usize)
        ensures
            n == self@.num_done,
    {
        self.num_done
    }

    /// The total time, in microseconds.
    pub fn total_time(&self) -> (t: u64)
        ensures
            t == self@.total_time,
    {
        self.total_time
    }

    /// The longest time of one item, in microseconds.
    pub fn max_time(&self) -> (t: u64)
        ensures
            t == self@.max_time,
    {
        self.max_time
    }
}

/// The statistics after recording the times `ts` in order.
pub open spec fn recorded_all(s: Snapshot, ts: Seq<u64>) -> Snapshot
    decreases ts.len(),
{
    if ts.len() == 0 {
        s
    } else {
        recorded(recorded_all(s, ts.drop_last()), ts.last())
    }
}

/// The longest time is the maximum of what was recorded: it is at least
/// every recorded time, and it is one of them (or the starting value).
pub proof fn lemma_max_is_maximum(s: Snapshot, ts: Seq<u64>)
    ensures
        forall|i: int| 0 <= i < ts.len() ==> ts[i] <= #[trigger] recorded_all(s, ts).max_time,
        s.max_time <= recorded_all(s, ts).max_time,
        recorded_all(s, ts).max_time == s.max_time
            || exists|i: int| 0 <= i < ts.len() && ts[i] == recorded_all(s, ts).max_time,
    decreases ts.len(),
{
    if ts.len() > 0 {
        let prefix = ts.drop_last();
        lemma_max_is_maximum(s, prefix);
        assert forall|i: int| 0 <= i < ts.len() implies ts[i] <= #[trigger] recorded_all(s, ts).max_time by {
            if i < ts.len() - 1 {
                assert(ts[i] == prefix[i]);
            }
        }
        if recorded_all(s, ts).max_time != s.max_time {
            if ts.last() > recorded_all(s, prefix).max_time {
                assert(ts[ts.len() - 1] == recorded_all(s, ts).max_time);
            } else {
                let i = choose|i: int| 0 <= i < prefix.len() && prefix[i] == recorded_all(s, prefix).max_time;
                assert(ts[i] == prefix[i]);
            }
        }
    }
}

/// Without wrap-around, the count of items done grows by exactly the
/// number of records.
pub proof fn lemma_count_matches(s: Snapshot, ts: Seq<u64>)
    requires
        s.num_done + ts.len() <= usize::MAX,
    ensures
        recorded_all(s, ts).num_done == s.num_done + ts.len(),
    decreases ts.len(),
{
    if ts.len() > 0 {
        lemma_count_matches(s, ts.drop_last());
    }
}

/// The sum of the times `ts`.
pub open spec fn sum_of(ts: Seq<u64>) -> int
    decreases ts.len(),
{
    if ts.len() == 0 {
        0
    } else {
        sum_of(ts.drop_last()) + ts.last()
    }
}

/// Without wrap-around, the total time grows by exactly the sum of the
/// recorded times: every item's time is added, whatever it is.
pub proof fn lemma_total_is_sum(s: Snapshot, ts: Seq<u64>)
    requires
        s.total_time + sum_of(ts) <= u64::MAX,
    ensures
        recorded_all(s, ts).total_time == s.total_time + sum_of(ts),
    decreases ts.len(),
{
    if ts.len() > 0 {
        lemma_sum_of_nonnegative(ts.drop_last());
        lemma_total_is_sum(s, ts.drop_last());
    }
}

/// A sum of times is never negative.
proof fn lemma_sum_of_nonnegative(ts: Seq<u64>)
    ensures
        sum_of(ts) >= 0,
    decreases ts.len(),
{
    if ts.len() > 0 {
        lemma_sum_of_nonnegative(ts.drop_last());
    }
}

/// One record adds one to the count and exactly the item's time to the
/// total (both wrapping), and the longest time becomes the larger of the old
/// one and the item's time.
pub proof fn lemma_one_record(s: Snapshot, t: u64)
    ensures
        recorded(s, t).num_done as int == (s.num_done + 1) % (usize::MAX + 1),
        recorded(s, t).total_time as int == (s.total_time + t) % 0x1_0000_0000_0000_0000,
        recorded(s, t).max_time >= t,
        recorded(s, t).max_time >= s.max_time,
        recorded(s, t).max_time == t || recorded(s, t).max_time == s.max_time,
{
    assert(s.total_time.wrapping_add(t) as int == (s.total_time + t) % 0x1_0000_0000_0000_0000) by (nonlinear_arith)
        requires
            s.total_time.wrapping_add(t) == if s.total_time + t > u64::MAX {
                s.total_time + t - 0x1_0000_0000_0000_0000
            } else {
                s.total_time + t
            },
    ;
    assert(s.num_done.wrapping_add(1) as int == (s.num_done + 1) % (usize::MAX + 1)) by (nonlinear_arith)
        requires
            s.num_done.wrapping_add(1) == if s.num_done + 1 > usize::MAX {
                s.num_done + 1 - (usize::MAX + 1)
            } else {
                s.num_done + 1
            },
            s.num_done <= usize::MAX,
    ;
}

} // verus!
