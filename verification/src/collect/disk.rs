use vstd::prelude::*;

verus! {

/// Disk I/O throughput from cumulative byte counters: the collector keeps the
/// counters of the last reading and turns each new reading into byte counts
/// since then.
pub struct DiskIoCollector {
    prev_read: i64,
    prev_write: i64,
}

/// `a - b`, or zero when that is negative.
pub open spec fn growth(a: i64, b: i64) -> nat {
    if a - b > 0 {
        (a - b) as nat
    } else {
        0
    }
}

/// Over readings whose counter never goes backwards, the bytes reported for
/// two successive readings add up to the growth from the first reference to
/// the second reading: nothing is counted twice or lost.
pub proof fn lemma_growth_adds_up(first: i64, mid: i64, last: i64)
    requires
        first <= mid <= last,
    ensures
        growth(mid, first) + growth(last, mid) == growth(last, first),
{
}

impl DiskIoCollector {
    /// The (read, write) counters of the last reading.
    pub closed spec fn counters(&self) -> (i64, i64) {
        (self.prev_read, self.prev_write)
    }

    /// The (read, write) counters of the last reading.
    pub fn counters_now(&self) -> (r: (i64, i64))
        ensures
            r == self.counters(),
    {
        (self.prev_read, self.prev_write)
    }

    /// Start from the first reading of the cumulative (read, write) byte
    /// counters; without one (the counters could not be read, or the platform
    /// has none) both start at zero.
    pub fn new(initial: Option<(i64, i64)>) -> (r: Self)
        ensures
            r.counters() == match initial {
                Some(c) => c,
                None => (0i64, 0i64),
            },
    {
        let (r, w) = match initial {
            Some(c) => c,
            None => (0, 0),
        };
        Self { prev_read: r, prev_write: w }
    }

    /// Take a new reading of the counters. Without one, nothing changes and
    /// there is nothing to report. Otherwise the bytes read and written since
    /// the last reading are returned (zero where a counter went backwards) and
    /// the reading becomes the new reference.
    pub fn advance(&mut self, current: Option<(i64, i64)>) -> (r: Option<(u64, u64)>)
        requires
            current matches Some((cr, cw)) ==> {
                &&& i64::MIN <= cr - old(self).counters().0 <= i64::MAX
                &&& i64::MIN <= cw - old(self).counters().1 <= i64::MAX
            },
        ensures
            match current {
                None => r is None && final(self).counters() == old(self).counters(),
                Some((cr, cw)) => {
                    &&& r == Some((growth(cr, old(self).counters().0) as u64, growth(cw, old(self).counters().1) as u64))
                    &&& final(self).counters() == (cr, cw)
                },
            },
    {
        let (cur_read, cur_write) = match current {
            Some(c) => c,
            None => return None,
        };
        let dr = cur_read - self.prev_read;
        let dw = cur_write - self.prev_write;
        self.prev_read = cur_read;
        self.prev_write = cur_write;
        let dr = if dr > 0 { dr as u64 } else { 0 };
        let dw = if dw > 0 { dw as u64 } else { 0 };
        Some((dr, dw))
    }
}

/// A drive's bytes read (`.0`) or written (`.1`); a figure the drive does not
/// report counts as zero.
pub open spec fn drive_bytes(d: (Option<i64>, Option<i64>), write: bool) -> int {
    match if write { d.1 } else { d.0 } {
        Some(x) => x as int,
        None => 0,
    }
}

/// Sum of the bytes read (or written, with `write`) over the drives.
pub open spec fn drive_sum(drives: Seq<(Option<i64>, Option<i64>)>, write: bool) -> int
    decreases drives.len(),
{
    if drives.len() == 0 {
        0
    } else {
        drive_sum(drives.drop_last(), write) + drive_bytes(drives.last(), write)
    }
}

/// Every running total over the first drives fits in an `i64`.
pub open spec fn sums_fit(drives: Seq<(Option<i64>, Option<i64>)>, write: bool) -> bool {
    forall|n: int| 0 <= n <= drives.len() ==> i64::MIN <= #[trigger] drive_sum(drives.subrange(0, n), write) <= i64::MAX
}

/// The cumulative (read, write) byte counters of the machine: the sums over
/// its drives of the counters each reports.
pub fn disk_totals(drives: &[(Option<i64>, Option<i64>)]) -> (r: (i64, i64))
    requires
        sums_fit(drives@, false),
        sums_fit(drives@, true),
    ensures
        r.0 == drive_sum(drives@, false),
        r.1 == drive_sum(drives@, true),
{
    let mut total_read: i64 = 0;
    let mut total_write: i64 = 0;
    let mut i: usize = 0;
    while i < drives.len()
        invariant
            i <= drives@.len(),
            sums_fit(drives@, false),
            sums_fit(drives@, true),
            total_read == drive_sum(drives@.subrange(0, i as int), false),
            total_write == drive_sum(drives@.subrange(0, i as int), true),
        decreases drives@.len() - i,
    {
        let ghost next = drives@.subrange(0, i + 1);
        assert(next.drop_last() =~= drives@.subrange(0, i as int));
        assert(i64::MIN <= drive_sum(next, false) <= i64::MAX);
        assert(i64::MIN <= drive_sum(next, true) <= i64::MAX);
        if let Some(r) = drives[i].0 {
            total_read = total_read + r;
        }
        if let Some(w) = drives[i].1 {
            total_write = total_write + w;
        }
        i = i + 1;
    }
    assert(drives@.subrange(0, drives@.len() as int) =~= drives@);
    (total_read, total_write)
}

} // verus!
