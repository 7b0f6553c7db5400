//! The ingestion loop's decision core: the phase machine
//! (idle, subscribed, streaming, draining, terminated), the bounded
//! in-flight window, and the offset-commit discipline.  The committed
//! offset never advances past a record whose outcome is still open, so a
//! crash between commit and publish cannot lose a record: delivery is
//! at-least-once.

use vstd::prelude::*;

verus! {

/// Fatal startup failure: the loop could not register interest in the
/// input topic, and the pipeline cannot proceed.
#[derive(Clone, Copy, PartialEq, Eq, Debug, Structural)]
pub enum SubscriptionError {
    SubscribeFailed,
}

/// Failure of one publish attempt: the broker did not acknowledge within
/// the bounded wait, or refused the record.  The record is lost for this
/// pass; the loop resolves it as dropped, never as committed-but-unsent.
#[derive(Clone, Copy, PartialEq, Eq, Debug, Structural)]
pub enum EmitError {
    Timeout,
    Rejected,
}

/// The number of `false` entries of a sequence of flags.
pub open spec fn count_false(s: Seq<bool>) -> int
    decreases s.len(),
{
    if s.len() == 0 {
        0
    } else {
        (if s[0] {
            0int
        } else {
            1int
        }) + count_false(s.drop_first())
    }
}

proof fn lemma_count_false_push(s: Seq<bool>, b: bool)
    ensures
        count_false(s.push(b)) == count_false(s) + if b {
            0int
        } else {
            1int
        },
    decreases s.len(),
{
    if s.len() == 0 {
        assert(s.push(b)[0] == b);
        assert(s.push(b).drop_first() =~= Seq::<bool>::empty());
        assert(count_false(s.push(b).drop_first()) == 0);
        assert(count_false(s.push(b)) == (if b {
            0int
        } else {
            1int
        }) + count_false(s.push(b).drop_first()));
    } else {
        lemma_count_false_push(s.drop_first(), b);
        assert(s.push(b)[0] == s[0]);
        assert(s.push(b).drop_first() =~= s.drop_first().push(b));
        assert(count_false(s.push(b)) == (if s[0] {
            0int
        } else {
            1int
        }) + count_false(s.drop_first().push(b)));
    }
}

proof fn lemma_count_false_pos(s: Seq<bool>, i: int)
    requires
        0 <= i < s.len(),
        !s[i],
    ensures
        count_false(s) >= 1,
    decreases s.len(),
{
    if i > 0 {
        lemma_count_false_pos(s.drop_first(), i - 1);
    }
    lemma_count_false_bound(s.drop_first());
}

proof fn lemma_count_false_update_true(s: Seq<bool>, i: int)
    requires
        0 <= i < s.len(),
        !s[i],
    ensures
        count_false(s.update(i, true)) == count_false(s) - 1,
    decreases s.len(),
{
    if i == 0 {
        assert(s.update(0, true).drop_first() =~= s.drop_first());
    } else {
        assert(s.update(i, true).drop_first() =~= s.drop_first().update(i - 1, true));
        lemma_count_false_update_true(s.drop_first(), i - 1);
    }
}

/// Tracks, for one partition, which dispatched offsets have reached a
/// terminal outcome, and the committed offset: the largest position such
/// that every offset at or below it is resolved.
pub struct OffsetTracker {
    base: u64,
    committed: u64,
    window: Vec<bool>,
    resolved_history: Ghost<Set<int>>,
}

impl OffsetTracker {
    /// The offset below which this tracker never dispatched.
    pub closed spec fn base(&self) -> int {
        self.base as int
    }

    /// The committed offset: every offset in `(base, committed]` has reached
    /// a terminal outcome.
    pub closed spec fn committed(&self) -> int {
        self.committed as int
    }

    /// The highest dispatched offset.
    pub closed spec fn dispatched(&self) -> int {
        self.committed + self.window.len()
    }

    /// Whether `o` is dispatched and still awaiting its terminal outcome.
    pub closed spec fn is_pending(&self, o: int) -> bool {
        self.committed() < o <= self.dispatched() && !self.window@[o - self.committed() - 1]
    }

    /// The number of dispatched offsets whose outcome is still open.
    pub closed spec fn pending_count(&self) -> int {
        count_false(self.window@)
    }

    /// Whether `o` has ever reached a terminal outcome (emitted or dropped).
    pub closed spec fn resolved_ever(&self, o: int) -> bool {
        self.resolved_history@.contains(o)
    }

    pub closed spec fn wf(&self) -> bool {
        &&& self.base <= self.committed
        &&& self.committed + self.window@.len() <= u64::MAX
        &&& (self.window@.len() > 0 ==> !self.window@[0])
        &&& (forall|o: int| self.base() < o <= self.committed() ==> self.resolved_history@.contains(o))
        &&& (forall|i: int|
            0 <= i < self.window@.len() && self.window@[i] ==> self.resolved_history@.contains(
                self.committed() + i + 1,
            ))
    }

    /// A fresh tracker whose offsets start just above `base`.
    pub fn new(base: u64) -> (t: OffsetTracker)
        ensures
            t.wf(),
            t.base() == base,
            t.committed() == base,
            t.dispatched() == base,
            t.pending_count() == 0,
            forall|o: int| !t.is_pending(o),
            forall|o: int| !t.resolved_ever(o),
    {
        OffsetTracker {
            base,
            committed: base,
            window: Vec::new(),
            resolved_history: Ghost(Set::empty()),
        }
    }

    /// Registers the next pulled record; returns its offset.
    pub fn dispatch(&mut self) -> (o: u64)
        requires
            old(self).wf(),
            old(self).dispatched() < u64::MAX,
        ensures
            final(self).wf(),
            o == old(self).dispatched() + 1,
            final(self).base() == old(self).base(),
            final(self).committed() == old(self).committed(),
            final(self).dispatched() == old(self).dispatched() + 1,
            final(self).pending_count() == old(self).pending_count() + 1,
            forall|p: int| final(self).is_pending(p) <==> (old(self).is_pending(p) || p == o),
            forall|p: int| final(self).resolved_ever(p) <==> old(self).resolved_ever(p),
    {
        proof {
            lemma_count_false_push(self.window@, false);
        }
        self.window.push(false);
        self.committed + (self.window.len() as u64)
    }

    /// The committed offset, as a value.
    pub fn committed_offset(&self) -> (o: u64)
        ensures
            o == self.committed(),
    {
        self.committed
    }

    /// Whether offset `o` is dispatched and still awaiting its terminal
    /// outcome.
    pub fn is_offset_pending(&self, o: u64) -> (r: bool)
        requires
            self.wf(),
        ensures
            r == self.is_pending(o as int),
    {
        if o > self.committed && o - self.committed <= self.window.len() as u64 {
            let idx: usize = (o - self.committed - 1) as usize;
            !self.window[idx]
        } else {
            false
        }
    }

    /// Records the terminal outcome of offset `o` and advances the committed
    /// offset over the longest fully resolved prefix.  The committed offset
    /// passes an offset only once that offset is resolved, and it stops
    /// right below the first still-pending offset.
    pub fn resolve(&mut self, o: u64)
        requires
            old(self).wf(),
            old(self).is_pending(o as int),
        ensures
            final(self).wf(),
            final(self).base() == old(self).base(),
            final(self).dispatched() == old(self).dispatched(),
            final(self).committed() >= old(self).committed(),
            final(self).pending_count() == old(self).pending_count() - 1,
            forall|p: int| final(self).is_pending(p) <==> (old(self).is_pending(p) && p != o),
            forall|p: int|
                final(self).resolved_ever(p) <==> (old(self).resolved_ever(p) || p == o),
            final(self).committed() == final(self).dispatched() || final(self).is_pending(
                final(self).committed() + 1,
            ),
    {
        let idx: usize = (o - self.committed - 1) as usize;
        proof {
            lemma_count_false_update_true(self.window@, idx as int);
        }
        self.window.set(idx, true);
        proof {
            self.resolved_history@ = self.resolved_history@.insert(o as int);
        }
        while self.window.len() > 0 && self.window[0]
            invariant
                self.base <= self.committed,
                self.committed + self.window@.len() <= u64::MAX,
                self.committed() + self.window@.len() == old(self).dispatched(),
                count_false(self.window@) == old(self).pending_count() - 1,
                forall|oo: int|
                    old(self).base() < oo <= self.committed() ==> self.resolved_history@.contains(
                        oo,
                    ),
                forall|i: int|
                    0 <= i < self.window@.len() && self.window@[i]
                        ==> self.resolved_history@.contains(self.committed() + i + 1),
                forall|p: int| self.is_pending(p) <==> (old(self).is_pending(p) && p != o),
                self.resolved_history@ =~= old(self).resolved_history@.insert(o as int),
                self.base == old(self).base,
                self.committed >= old(self).committed,
            decreases self.window@.len(),
        {
            let ghost pre = *self;
            proof {
                assert(self.window@.remove(0) =~= self.window@.drop_first());
            }
            self.window.remove(0);
            self.committed = self.committed + 1;
            proof {
                assert(self.window@ =~= pre.window@.drop_first());
                assert(count_false(self.window@) == count_false(pre.window@));
                assert forall|p: int| self.is_pending(p) <==> pre.is_pending(p) by {
                    if pre.committed() + 1 < p <= pre.dispatched() {
                        assert(self.window@[p - self.committed() - 1] == pre.window@[p
                            - pre.committed() - 1]);
                    }
                }
            }
        }
    }
}

/// The phases of the ingestion loop's lifecycle.
#[derive(Clone, Copy, PartialEq, Eq, Debug, Structural)]
pub enum Phase {
    Idle,
    Subscribed,
    Streaming,
    Draining,
    Terminated,
}

/// The ingestion loop's state: its phase, the offset window, the bound on
/// concurrent in-flight records, and the outcome counters.  The loop itself
/// performs no broker I/O; it decides, and the surrounding runtime performs.
pub struct IngestionLoop {
    phase: Phase,
    tracker: OffsetTracker,
    max_in_flight: usize,
    emitted: u64,
    dropped: u64,
    undrained: u64,
}

impl IngestionLoop {
    pub closed spec fn phase(&self) -> Phase {
        self.phase
    }

    pub closed spec fn committed(&self) -> int {
        self.tracker.committed()
    }

    pub closed spec fn dispatched(&self) -> int {
        self.tracker.dispatched()
    }

    pub closed spec fn base(&self) -> int {
        self.tracker.base()
    }

    pub closed spec fn in_flight(&self) -> int {
        self.tracker.pending_count()
    }

    pub closed spec fn is_pending(&self, o: int) -> bool {
        self.tracker.is_pending(o)
    }

    pub closed spec fn resolved_ever(&self, o: int) -> bool {
        self.tracker.resolved_ever(o)
    }

    pub closed spec fn max_in_flight(&self) -> int {
        self.max_in_flight as int
    }

    /// Records emitted and committed-eligible.
    pub closed spec fn emitted(&self) -> int {
        self.emitted as int
    }

    /// Records dropped per-record (decode failure, stage failure, emit
    /// failure) whose offsets still resolve, so the loop goes on.
    pub closed spec fn dropped(&self) -> int {
        self.dropped as int
    }

    /// Records still in flight when a drain timeout forced termination.
    pub closed spec fn undrained(&self) -> int {
        self.undrained as int
    }

    pub closed spec fn wf(&self) -> bool {
        &&& self.tracker.wf()
        &&& self.max_in_flight >= 1
        &&& self.emitted + self.dropped + self.tracker.pending_count() == self.tracker.dispatched()
            - self.tracker.base()
        &&& (self.phase() != Phase::Terminated ==> self.undrained == 0)
        &&& self.undrained <= self.tracker.pending_count()
    }

    /// A fresh loop over offsets above `base`, admitting at most
    /// `max_in_flight` concurrently in-flight records.
    pub fn new(base: u64, max_in_flight: usize) -> (l: IngestionLoop)
        requires
            max_in_flight >= 1,
        ensures
            l.wf(),
            l.phase() == Phase::Idle,
            l.base() == base,
            l.committed() == base,
            l.dispatched() == base,
            l.in_flight() == 0,
            l.emitted() == 0,
            l.dropped() == 0,
            l.undrained() == 0,
            l.max_in_flight() == max_in_flight,
            forall|o: int| !l.is_pending(o),
            forall|o: int| !l.resolved_ever(o),
    {
        IngestionLoop {
            phase: Phase::Idle,
            tracker: OffsetTracker::new(base),
            max_in_flight,
            emitted: 0,
            dropped: 0,
            undrained: 0,
        }
    }

    /// The outcome of the subscription attempt.  Failure is fatal: the loop
    /// terminates at once and the error escalates.
    pub fn on_subscribe(&mut self, ok: bool) -> (r: Result<(), SubscriptionError>)
        requires
            old(self).wf(),
            old(self).phase() == Phase::Idle,
        ensures
            final(self).wf(),
            ok ==> final(self).phase() == Phase::Subscribed && r is Ok,
            !ok ==> final(self).phase() == Phase::Terminated && r
                == Result::<(), SubscriptionError>::Err(SubscriptionError::SubscribeFailed),
            final(self).base() == old(self).base(),
            final(self).committed() == old(self).committed(),
            final(self).dispatched() == old(self).dispatched(),
            final(self).in_flight() == old(self).in_flight(),
            final(self).max_in_flight() == old(self).max_in_flight(),
            final(self).emitted() == old(self).emitted(),
            final(self).dropped() == old(self).dropped(),
            final(self).undrained() == old(self).undrained(),
            forall|p: int| final(self).is_pending(p) <==> old(self).is_pending(p),
            forall|p: int| final(self).resolved_ever(p) <==> old(self).resolved_ever(p),
    {
        if ok {
            self.phase = Phase::Subscribed;
            Ok(())
        } else {
            self.phase = Phase::Terminated;
            Err(SubscriptionError::SubscribeFailed)
        }
    }

    /// Enters the streaming phase, after a successful subscription.
    pub fn start_streaming(&mut self)
        requires
            old(self).wf(),
            old(self).phase() == Phase::Subscribed,
        ensures
            final(self).wf(),
            final(self).phase() == Phase::Streaming,
            final(self).base() == old(self).base(),
            final(self).committed() == old(self).committed(),
            final(self).dispatched() == old(self).dispatched(),
            final(self).in_flight() == old(self).in_flight(),
            final(self).max_in_flight() == old(self).max_in_flight(),
            final(self).emitted() == old(self).emitted(),
            final(self).dropped() == old(self).dropped(),
            final(self).undrained() == old(self).undrained(),
            forall|p: int| final(self).is_pending(p) <==> old(self).is_pending(p),
            forall|p: int| final(self).resolved_ever(p) <==> old(self).resolved_ever(p),
    {
        self.phase = Phase::Streaming;
    }

    /// Backpressure: the loop pulls a new record only while streaming and
    /// only while fewer than `max_in_flight` records are mid-flight.
    pub fn may_pull(&self) -> (r: bool)
        requires
            self.wf(),
        ensures
            r == (self.phase() == Phase::Streaming && self.in_flight() < self.max_in_flight()),
    {
        matches!(self.phase, Phase::Streaming) && self.pending_exec() < self.max_in_flight
    }

    /// Dispatches the next pulled record into the in-flight window and
    /// returns the offset assigned to it.
    pub fn dispatch(&mut self) -> (o: u64)
        requires
            old(self).wf(),
            old(self).phase() == Phase::Streaming,
            old(self).in_flight() < old(self).max_in_flight(),
            old(self).dispatched() < u64::MAX,
        ensures
            final(self).wf(),
            final(self).phase() == Phase::Streaming,
            o == old(self).dispatched() + 1,
            final(self).dispatched() == old(self).dispatched() + 1,
            final(self).committed() == old(self).committed(),
            final(self).in_flight() == old(self).in_flight() + 1,
            forall|p: int| final(self).is_pending(p) <==> (old(self).is_pending(p) || p == o),
            forall|p: int| final(self).resolved_ever(p) <==> old(self).resolved_ever(p),
            final(self).base() == old(self).base(),
            final(self).max_in_flight() == old(self).max_in_flight(),
            final(self).emitted() == old(self).emitted(),
            final(self).dropped() == old(self).dropped(),
            final(self).undrained() == old(self).undrained(),
    {
        self.tracker.dispatch()
    }

    /// Resolves offset `o` with its terminal outcome: emitted to the output
    /// topic, or dropped after a contained per-record failure.  Either way
    /// the offset resolves and the committed offset advances over the
    /// longest fully resolved prefix — never past a pending offset.
    pub fn complete(&mut self, o: u64, emitted_ok: bool)
        requires
            old(self).wf(),
            old(self).phase() == Phase::Streaming || old(self).phase() == Phase::Draining,
            old(self).is_pending(o as int),
        ensures
            final(self).wf(),
            final(self).phase() == old(self).phase(),
            final(self).dispatched() == old(self).dispatched(),
            final(self).committed() >= old(self).committed(),
            final(self).in_flight() == old(self).in_flight() - 1,
            forall|p: int| final(self).is_pending(p) <==> (old(self).is_pending(p) && p != o),
            forall|p: int|
                final(self).resolved_ever(p) <==> (old(self).resolved_ever(p) || p == o),
            final(self).committed() == final(self).dispatched() || final(self).is_pending(
                final(self).committed() + 1,
            ),
            emitted_ok ==> final(self).emitted() == old(self).emitted() + 1 && final(self).dropped()
                == old(self).dropped(),
            !emitted_ok ==> final(self).dropped() == old(self).dropped() + 1
                && final(self).emitted() == old(self).emitted(),
            final(self).base() == old(self).base(),
            final(self).max_in_flight() == old(self).max_in_flight(),
            final(self).undrained() == old(self).undrained(),
    {
        proof {
            lemma_count_false_bound(self.tracker.window@);
            lemma_count_false_pos(
                self.tracker.window@,
                o - self.tracker.committed() - 1,
            );
        }
        self.tracker.resolve(o);
        if emitted_ok {
            self.emitted = self.emitted + 1;
        } else {
            self.dropped = self.dropped + 1;
        }
    }

    /// The shutdown signal: the loop stops pulling and drains what is in
    /// flight.
    pub fn shutdown(&mut self)
        requires
            old(self).wf(),
            old(self).phase() == Phase::Streaming,
        ensures
            final(self).wf(),
            final(self).phase() == Phase::Draining,
            final(self).base() == old(self).base(),
            final(self).committed() == old(self).committed(),
            final(self).dispatched() == old(self).dispatched(),
            final(self).in_flight() == old(self).in_flight(),
            final(self).max_in_flight() == old(self).max_in_flight(),
            final(self).emitted() == old(self).emitted(),
            final(self).dropped() == old(self).dropped(),
            final(self).undrained() == old(self).undrained(),
            forall|p: int| final(self).is_pending(p) <==> old(self).is_pending(p),
            forall|p: int| final(self).resolved_ever(p) <==> old(self).resolved_ever(p),
    {
        self.phase = Phase::Draining;
    }

    /// One draining decision.  With nothing left in flight the loop
    /// terminates cleanly.  When the drain timeout has expired it
    /// force-terminates: the records still in flight are counted as
    /// un-drained — reported, not committed — and the committed offset stays
    /// where it was.  Otherwise the loop keeps waiting.
    pub fn poll_drain(&mut self, timeout_expired: bool) -> (done: bool)
        requires
            old(self).wf(),
            old(self).phase() == Phase::Draining,
        ensures
            final(self).wf(),
            done == (old(self).in_flight() == 0 || timeout_expired),
            !done ==> *final(self) == *old(self),
            done ==> final(self).phase() == Phase::Terminated,
            done ==> final(self).committed() == old(self).committed(),
            done ==> final(self).emitted() == old(self).emitted(),
            done ==> final(self).dropped() == old(self).dropped(),
            done ==> final(self).undrained() == old(self).in_flight(),
            final(self).base() == old(self).base(),
            final(self).dispatched() == old(self).dispatched(),
            final(self).in_flight() == old(self).in_flight(),
            final(self).max_in_flight() == old(self).max_in_flight(),
            forall|p: int| final(self).is_pending(p) <==> old(self).is_pending(p),
            forall|p: int| final(self).resolved_ever(p) <==> old(self).resolved_ever(p),
    {
        proof {
            lemma_count_false_bound(self.tracker.window@);
        }
        let pending = self.pending_exec();
        if pending == 0 || timeout_expired {
            self.phase = Phase::Terminated;
            self.undrained = pending as u64;
            true
        } else {
            false
        }
    }

    /// Whether offset `o` is dispatched and still awaiting its terminal
    /// outcome: the condition a caller owes `complete`.
    pub fn is_offset_pending(&self, o: u64) -> (r: bool)
        requires
            self.wf(),
        ensures
            r == self.is_pending(o as int),
    {
        self.tracker.is_offset_pending(o)
    }

    /// The number of records currently in flight.
    pub fn in_flight_count(&self) -> (n: usize)
        requires
            self.wf(),
        ensures
            n == self.in_flight(),
    {
        self.pending_exec()
    }

    /// The phase the loop stands in.
    pub fn current_phase(&self) -> (p: Phase)
        ensures
            p == self.phase(),
    {
        self.phase
    }

    /// The committed offset: the position the loop may acknowledge to the
    /// broker.
    pub fn committed_offset(&self) -> (o: u64)
        ensures
            o == self.committed(),
    {
        self.tracker.committed_offset()
    }

    /// How many records were emitted to the output topic.
    pub fn emitted_count(&self) -> (n: u64)
        ensures
            n == self.emitted(),
    {
        self.emitted
    }

    /// How many records were dropped after a contained per-record failure.
    pub fn dropped_count(&self) -> (n: u64)
        ensures
            n == self.dropped(),
    {
        self.dropped
    }

    /// How many records were still in flight when a drain timeout forced
    /// termination.
    pub fn undrained_count(&self) -> (n: u64)
        ensures
            n == self.undrained(),
    {
        self.undrained
    }

    /// The number of in-flight records, computed from the window.
    fn pending_exec(&self) -> (n: usize)
        requires
            self.wf(),
        ensures
            n == self.in_flight(),
    {
        let mut n: usize = 0;
        let mut i: usize = 0;
        proof {
            lemma_count_false_bound(self.tracker.window@);
            lemma_count_false_empty_prefix(self.tracker.window@);
        }
        while i < self.tracker.window.len()
            invariant
                i <= self.tracker.window@.len(),
                n == count_false(self.tracker.window@.take(i as int)),
                n <= i,
            decreases self.tracker.window@.len() - i,
        {
            proof {
                lemma_count_false_push(
                    self.tracker.window@.take(i as int),
                    self.tracker.window@[i as int],
                );
                assert(self.tracker.window@.take((i + 1) as int) =~= self.tracker.window@.take(
                    i as int,
                ).push(self.tracker.window@[i as int]));
            }
            if !self.tracker.window[i] {
                n = n + 1;
            }
            i = i + 1;
        }
        proof {
            assert(self.tracker.window@.take(self.tracker.window@.len() as int)
                =~= self.tracker.window@);
        }
        n
    }
}

proof fn lemma_count_false_bound(s: Seq<bool>)
    ensures
        0 <= count_false(s) <= s.len(),
    decreases s.len(),
{
    if s.len() > 0 {
        lemma_count_false_bound(s.drop_first());
    }
}

proof fn lemma_count_false_empty_prefix(s: Seq<bool>)
    ensures
        count_false(s.take(0)) == 0,
{
    assert(s.take(0) =~= Seq::<bool>::empty());
}

/// The commit discipline: an offset at or below the committed offset has
/// always reached its terminal outcome first.  The committed offset never
/// skips a record whose emission is still open.
pub proof fn lemma_commit_only_after_resolution(t: &OffsetTracker, o: int)
    requires
        t.wf(),
        t.base() < o <= t.committed(),
    ensures
        t.resolved_ever(o),
{
}

/// The same discipline, read off the ingestion loop: every offset the loop
/// has committed past was resolved, and every still-pending offset lies
/// strictly above the committed offset.
pub proof fn lemma_loop_commit_discipline(l: &IngestionLoop, o: int)
    requires
        l.wf(),
    ensures
        l.base() < o <= l.committed() ==> l.resolved_ever(o),
        l.is_pending(o) ==> o > l.committed(),
{
}

} // verus!
