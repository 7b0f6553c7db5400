//! Instrumentation arithmetic: the per-record latency span, a latency
//! histogram, and the periodic throughput computation.  The throughput
//! delta is monotonic-safe: a counter reset or a non-advancing clock
//! reports zero, never a negative rate.

use vstd::prelude::*;

verus! {

/// The wall-clock span of one record's transit, from pull to emission
/// attempt.  A clock that moved backwards yields zero.
pub fn span_ms(pulled_at_ms: u64, emitted_at_ms: u64) -> (r: u64)
    ensures
        r == if emitted_at_ms >= pulled_at_ms {
            emitted_at_ms - pulled_at_ms
        } else {
            0
        },
{
    if emitted_at_ms >= pulled_at_ms {
        emitted_at_ms - pulled_at_ms
    } else {
        0
    }
}

/// The throughput reported for one interval, in records per second.
pub open spec fn throughput_spec(
    prev_count: int,
    prev_time_ms: int,
    count: int,
    time_ms: int,
) -> int {
    if count < prev_count || time_ms <= prev_time_ms {
        0
    } else {
        let q = (count - prev_count) * 1000 / (time_ms - prev_time_ms);
        if q > u64::MAX {
            u64::MAX as int
        } else {
            q
        }
    }
}

/// Records per second over the interval since the previous reading,
/// computed from the cumulative count.  A counter that went backwards
/// (a reset) or a clock that did not advance reports zero.
pub fn throughput_per_sec(prev_count: u64, prev_time_ms: u64, count: u64, time_ms: u64) -> (r: u64)
    ensures
        r == throughput_spec(prev_count as int, prev_time_ms as int, count as int, time_ms as int),
{
    if count < prev_count || time_ms <= prev_time_ms {
        0
    } else {
        let dc: u128 = (count - prev_count) as u128 * 1000;
        let dt: u128 = (time_ms - prev_time_ms) as u128;
        let q: u128 = dc / dt;
        if q > u64::MAX as u128 {
            u64::MAX
        } else {
            q as u64
        }
    }
}

/// The bucket a latency value falls into: the first bound it does not
/// exceed, or the overflow bucket past every bound.
pub open spec fn bucket_of(bounds: Seq<u64>, v: int) -> int
    decreases bounds.len(),
{
    if bounds.len() == 0 {
        0
    } else if v <= bounds[0] {
        0
    } else {
        1 + bucket_of(bounds.drop_first(), v)
    }
}

proof fn lemma_bucket_at(bounds: Seq<u64>, v: int, i: int)
    requires
        0 <= i <= bounds.len(),
        forall|j: int| 0 <= j < i ==> v > bounds[j],
        i < bounds.len() ==> v <= bounds[i],
    ensures
        bucket_of(bounds, v) == i,
    decreases bounds.len(),
{
    if bounds.len() > 0 && i > 0 {
        lemma_bucket_at(bounds.drop_first(), v, i - 1);
    }
}

/// A latency histogram over fixed upper bounds, with one overflow bucket.
pub struct LatencyHistogram {
    bounds: Vec<u64>,
    counts: Vec<u64>,
}

impl LatencyHistogram {
    pub closed spec fn bounds(&self) -> Seq<u64> {
        self.bounds@
    }

    pub closed spec fn counts(&self) -> Seq<u64> {
        self.counts@
    }

    pub closed spec fn wf(&self) -> bool {
        self.counts@.len() == self.bounds@.len() + 1
    }

    /// A histogram over the given bucket bounds, all counts zero.
    pub fn new(bounds: Vec<u64>) -> (h: LatencyHistogram)
        requires
            bounds@.len() < usize::MAX,
        ensures
            h.wf(),
            h.bounds() == bounds@,
            h.counts().len() == bounds@.len() + 1,
            forall|i: int| 0 <= i < h.counts().len() ==> h.counts()[i] == 0,
    {
        let mut counts: Vec<u64> = Vec::new();
        let mut i: usize = 0;
        while i <= bounds.len()
            invariant
                bounds@.len() < usize::MAX,
                i <= bounds@.len() + 1,
                counts@.len() == i,
                forall|j: int| 0 <= j < i ==> counts@[j] == 0,
            decreases bounds@.len() + 1 - i,
        {
            counts.push(0);
            i = i + 1;
        }
        LatencyHistogram { bounds, counts }
    }

    /// Observes one latency value: the count of the bucket the value falls
    /// into rises by one (it saturates rather than wraps).
    pub fn observe(&mut self, v: u64)
        requires
            old(self).wf(),
        ensures
            final(self).wf(),
            final(self).bounds() == old(self).bounds(),
            ({
                let b = bucket_of(old(self).bounds(), v as int);
                final(self).counts() == old(self).counts().update(
                    b,
                    if old(self).counts()[b] < u64::MAX {
                        (old(self).counts()[b] + 1) as u64
                    } else {
                        u64::MAX
                    },
                )
            }),
    {
        let mut i: usize = 0;
        while i < self.bounds.len() && v > self.bounds[i]
            invariant
                i <= self.bounds@.len(),
                forall|j: int| 0 <= j < i ==> v > self.bounds@[j],
            decreases self.bounds@.len() - i,
        {
            i = i + 1;
        }
        proof {
            lemma_bucket_at(self.bounds@, v as int, i as int);
        }
        let c = self.counts[i];
        if c < u64::MAX {
            self.counts.set(i, c + 1);
        } else {
            self.counts.set(i, u64::MAX);
        }
    }

    /// The count of one bucket.
    pub fn count_at(&self, i: usize) -> (r: u64)
        requires
            self.wf(),
            i < self.counts().len(),
        ensures
            r == self.counts()[i as int],
    {
        self.counts[i]
    }

    /// The number of buckets, the overflow bucket included.
    pub fn num_buckets(&self) -> (r: usize)
        requires
            self.wf(),
        ensures
            r == self.counts().len(),
    {
        self.counts.len()
    }
}

} // verus!
