use vstd::prelude::*;

use crate::error::Error;

verus! {

/// Where one unit of fetch work stands: waiting in the queue, handed to a
/// worker, or finished with its completion token produced.
#[derive(Clone, Copy, Debug, PartialEq, Eq, Structural)]
pub enum JobState {
    Pending,
    InFlight,
    Done,
}

/// How often `st` occurs in `states`.
pub open spec fn count_in(states: Seq<JobState>, st: JobState) -> int
    decreases states.len(),
{
    if states.len() == 0 {
        0
    } else {
        count_in(states.drop_last(), st) + if states.last() == st {
            1int
        } else {
            0int
        }
    }
}

proof fn lemma_count_zero(states: Seq<JobState>, st: JobState)
    requires
        count_in(states, st) == 0,
    ensures
        forall|i: int| 0 <= i < states.len() ==> states[i] != st,
    decreases states.len(),
{
    if states.len() > 0 {
        lemma_count_nonneg(states.drop_last(), st);
        lemma_count_zero(states.drop_last(), st);
        assert(forall|i: int|
            0 <= i < states.len() - 1 ==> states[i] == states.drop_last()[i]);
    }
}

proof fn lemma_count_nonneg(states: Seq<JobState>, st: JobState)
    ensures
        count_in(states, st) >= 0,
    decreases states.len(),
{
    if states.len() > 0 {
        lemma_count_nonneg(states.drop_last(), st);
    }
}

proof fn lemma_count_all(states: Seq<JobState>, st: JobState)
    requires
        forall|i: int| 0 <= i < states.len() ==> states[i] == st,
    ensures
        count_in(states, st) == states.len(),
    decreases states.len(),
{
    if states.len() > 0 {
        assert(forall|i: int|
            0 <= i < states.len() - 1 ==> states.drop_last()[i] == states[i]);
        lemma_count_all(states.drop_last(), st);
    }
}

/// Whether some queue slot holds the job index `i`.
pub open spec fn in_order(order: Seq<usize>, i: int) -> bool {
    exists|k: int| 0 <= k < order.len() && (#[trigger] order[k]) == i
}

proof fn lemma_in_order_witness(order: Seq<usize>, i: int, k: int)
    requires
        0 <= k < order.len(),
        order[k] == i,
    ensures
        in_order(order, i),
{
}

/// The shared work queue of the segment fetcher. Jobs are the indices of
/// `urls`; `order` is the first-in-first-out queue of pending jobs. The
/// ghost tallies `fetches` and `failures` record, for each job, how often a
/// worker took it and how often it was requeued after a transient failure.
pub struct WorkQueue {
    pub urls: Vec<Vec<u8>>,
    pub state: Vec<JobState>,
    pub order: Vec<usize>,
    pub fetches: Ghost<Seq<int>>,
    pub failures: Ghost<Seq<int>>,
}

impl WorkQueue {
    /// The queue's invariant: `order` holds exactly the pending jobs, each
    /// once, and a job has been handed out exactly once more than it
    /// failed, unless it is pending again or still.
    pub open spec fn wf(&self) -> bool {
        &&& self.state@.len() == self.urls@.len()
        &&& self.fetches@.len() == self.urls@.len()
        &&& self.failures@.len() == self.urls@.len()
        &&& forall|k: int|
            0 <= k < self.order@.len() ==> (#[trigger] self.order@[k]) < self.urls@.len()
                && self.state@[self.order@[k] as int] is Pending
        &&& forall|k1: int, k2: int|
            0 <= k1 < k2 < self.order@.len() ==> self.order@[k1] != self.order@[k2]
        &&& forall|i: int|
            0 <= i < self.state@.len() && (#[trigger] self.state@[i]) is Pending ==> in_order(
                self.order@,
                i,
            )
        &&& forall|i: int|
            0 <= i < self.state@.len() ==> #[trigger] self.fetches@[i] == self.failures@[i] + (
            if self.state@[i] is Pending {
                0int
            } else {
                1int
            })
        &&& forall|i: int| 0 <= i < self.state@.len() ==> #[trigger] self.failures@[i] >= 0
    }

    /// Builds the queue over the given URLs: every job pending, enqueued in
    /// order, nothing fetched yet.
    pub fn new(urls: Vec<Vec<u8>>) -> (q: WorkQueue)
        requires
            urls@.len() < usize::MAX,
        ensures
            q.wf(),
            q.urls@ == urls@,
            q.state@.len() == urls@.len(),
            forall|i: int| 0 <= i < urls@.len() ==> q.state@[i] is Pending,
            q.order@.len() == urls@.len(),
            forall|k: int| 0 <= k < urls@.len() ==> #[trigger] q.order@[k] == k,
            forall|i: int| 0 <= i < urls@.len() ==> #[trigger] q.fetches@[i] == 0,
            forall|i: int| 0 <= i < urls@.len() ==> #[trigger] q.failures@[i] == 0,
    {
        let n = urls.len();
        let mut state: Vec<JobState> = Vec::new();
        let mut order: Vec<usize> = Vec::new();
        let mut i: usize = 0;
        while i < n
            invariant
                0 <= i <= n,
                n == urls@.len(),
                n < usize::MAX,
                state@.len() == i,
                order@.len() == i,
                forall|j: int| 0 <= j < i ==> state@[j] is Pending,
                forall|k: int| 0 <= k < i ==> #[trigger] order@[k] == k,
            decreases n - i,
        {
            state.push(JobState::Pending);
            order.push(i);
            i = i + 1;
        }
        let q = WorkQueue {
            urls,
            state,
            order,
            fetches: Ghost(Seq::new(n as nat, |j: int| 0int)),
            failures: Ghost(Seq::new(n as nat, |j: int| 0int)),
        };
        assert forall|i2: int|
            0 <= i2 < q.state@.len() && (#[trigger] q.state@[i2]) is Pending implies in_order(
            q.order@,
            i2,
        ) by {
            lemma_in_order_witness(q.order@, i2, i2);
        }
        q
    }

    /// Hands the oldest pending job to a worker, or reports an empty queue.
    /// Taking a job records one more fetch of it.
    pub fn take(&mut self) -> (r: Option<usize>)
        requires
            old(self).wf(),
        ensures
            final(self).wf(),
            final(self).urls@ == old(self).urls@,
            match r {
                None => *final(self) == *old(self) && old(self).order@.len() == 0,
                Some(i) => {
                    &&& old(self).order@.len() > 0
                    &&& i == old(self).order@[0]
                    &&& i < old(self).urls@.len()
                    &&& old(self).state@[i as int] is Pending
                    &&& final(self).order@ == old(self).order@.skip(1)
                    &&& final(self).state@ == old(self).state@.update(
                        i as int,
                        JobState::InFlight,
                    )
                    &&& final(self).fetches@ == old(self).fetches@.update(
                        i as int,
                        old(self).fetches@[i as int] + 1,
                    )
                    &&& final(self).failures@ == old(self).failures@
                },
            },
    {
        if self.order.len() == 0 {
            return None;
        }
        let i = self.order.remove(0);
        assert(self.order@ =~= old(self).order@.skip(1));
        self.state[i] = JobState::InFlight;
        proof {
            self.fetches@ = self.fetches@.update(i as int, self.fetches@[i as int] + 1);
        }
        assert(final(self).wf()) by {
            let oldq = *old(self);
            let newq = *final(self);
            assert forall|k: int|
                0 <= k < newq.order@.len() implies (#[trigger] newq.order@[k])
                < newq.urls@.len() && newq.state@[newq.order@[k] as int] is Pending by {
                assert(newq.order@[k] == oldq.order@[k + 1]);
                assert(oldq.order@[k + 1] != oldq.order@[0]);
            }
            assert forall|j: int|
                0 <= j < newq.state@.len() && (#[trigger] newq.state@[j])
                is Pending implies in_order(newq.order@, j) by {
                assert(j != i);
                assert(oldq.state@[j] is Pending);
                assert(in_order(oldq.order@, j));
                let k0 = choose|k0: int|
                    0 <= k0 < oldq.order@.len() && (#[trigger] oldq.order@[k0]) == j;
                assert(oldq.order@[0] == i);
                assert(k0 != 0);
                assert(newq.order@[k0 - 1] == oldq.order@[k0]);
                lemma_in_order_witness(newq.order@, j, k0 - 1);
            }
        }
        Some(i)
    }

    /// Marks the job a worker finished (or skipped over an existing file)
    /// as done: its completion token.
    pub fn complete(&mut self, i: usize)
        requires
            old(self).wf(),
            i < old(self).state@.len(),
            old(self).state@[i as int] is InFlight,
        ensures
            final(self).wf(),
            final(self).urls@ == old(self).urls@,
            final(self).order@ == old(self).order@,
            final(self).state@ == old(self).state@.update(i as int, JobState::Done),
            final(self).fetches@ == old(self).fetches@,
            final(self).failures@ == old(self).failures@,
    {
        self.state[i] = JobState::Done;
        assert(final(self).wf()) by {
            let oldq = *old(self);
            let newq = *final(self);
            assert forall|j: int|
                0 <= j < newq.state@.len() && (#[trigger] newq.state@[j])
                is Pending implies in_order(newq.order@, j) by {
                assert(oldq.state@[j] is Pending);
                assert(in_order(oldq.order@, j));
                let k0 = choose|k0: int|
                    0 <= k0 < oldq.order@.len() && (#[trigger] oldq.order@[k0]) == j;
                lemma_in_order_witness(newq.order@, j, k0);
            }
        }
    }

    /// Puts a transiently failed job back on the queue, exactly once for
    /// this failure, at the tail.
    pub fn requeue(&mut self, i: usize)
        requires
            old(self).wf(),
            i < old(self).state@.len(),
            old(self).state@[i as int] is InFlight,
        ensures
            final(self).wf(),
            final(self).urls@ == old(self).urls@,
            final(self).order@ == old(self).order@.push(i),
            final(self).state@ == old(self).state@.update(i as int, JobState::Pending),
            final(self).fetches@ == old(self).fetches@,
            final(self).failures@ == old(self).failures@.update(
                i as int,
                old(self).failures@[i as int] + 1,
            ),
    {
        self.order.push(i);
        self.state[i] = JobState::Pending;
        proof {
            self.failures@ = self.failures@.update(i as int, self.failures@[i as int] + 1);
        }
        assert(final(self).wf()) by {
            let oldq = *old(self);
            let newq = *final(self);
            assert forall|k: int|
                0 <= k < newq.order@.len() implies (#[trigger] newq.order@[k])
                < newq.urls@.len() && newq.state@[newq.order@[k] as int] is Pending by {
                if k < oldq.order@.len() {
                    assert(newq.order@[k] == oldq.order@[k]);
                    assert(oldq.order@[k] != i);
                }
            }
            assert forall|k1: int, k2: int|
                0 <= k1 < k2 < newq.order@.len() implies newq.order@[k1]
                != newq.order@[k2] by {
                if k2 == newq.order@.len() - 1 {
                    assert(newq.order@[k1] == oldq.order@[k1]);
                    assert(oldq.order@[k1] != i);
                }
            }
            assert forall|j: int|
                0 <= j < newq.state@.len() && (#[trigger] newq.state@[j])
                is Pending implies in_order(newq.order@, j) by {
                if j == i {
                    assert(newq.order@[newq.order@.len() - 1] == j);
                    lemma_in_order_witness(newq.order@, j, newq.order@.len() - 1);
                } else {
                    assert(oldq.state@[j] is Pending);
                    assert(in_order(oldq.order@, j));
                    let k0 = choose|k0: int|
                        0 <= k0 < oldq.order@.len() && (#[trigger] oldq.order@[k0]) == j;
                    assert(newq.order@[k0] == j);
                    lemma_in_order_witness(newq.order@, j, k0);
                }
            }
        }
    }

    /// How many jobs wait in the queue.
    pub fn pending_len(&self) -> (r: usize)
        ensures
            r == self.order@.len(),
    {
        self.order.len()
    }

    /// How many completion tokens have been produced.
    pub fn done_len(&self) -> (r: usize)
        ensures
            r == count_in(self.state@, JobState::Done),
    {
        let mut c: usize = 0;
        let mut i: usize = 0;
        while i < self.state.len()
            invariant
                0 <= i <= self.state@.len(),
                c <= i,
                c == count_in(self.state@.take(i as int), JobState::Done),
            decreases self.state@.len() - i,
        {
            assert(self.state@.take(i + 1).drop_last() =~= self.state@.take(i as int));
            if matches!(self.state[i], JobState::Done) {
                c = c + 1;
            }
            i = i + 1;
        }
        assert(self.state@.take(self.state@.len() as int) =~= self.state@);
        c
    }
}

/// Once the queue has drained — nothing pending, no worker holding a job —
/// exactly as many completion tokens stand as URLs were enqueued, and every
/// URL was handed to a worker exactly once more than it transiently failed:
/// no URL is fetched twice unless its fetch failed in between.
pub proof fn lemma_queue_conservation(q: WorkQueue)
    requires
        q.wf(),
        q.order@.len() == 0,
        count_in(q.state@, JobState::InFlight) == 0,
    ensures
        count_in(q.state@, JobState::Done) == q.urls@.len(),
        forall|i: int| 0 <= i < q.urls@.len() ==> #[trigger] q.fetches@[i] == q.failures@[i]
            + 1,
{
    lemma_count_zero(q.state@, JobState::InFlight);
    assert forall|i: int| 0 <= i < q.state@.len() implies q.state@[i] == JobState::Done by {
        if q.state@[i] is Pending {
            assert(in_order(q.order@, i));
            let k = choose|k: int| 0 <= k < q.order@.len() && (#[trigger] q.order@[k]) == i;
            assert(false);
        }
        assert(!(q.state@[i] is InFlight));
    }
    lemma_count_all(q.state@, JobState::Done);
}

/// What a worker does once it holds a job, before any network request.
#[derive(Clone, Copy, Debug, PartialEq, Eq, Structural)]
pub enum FetchDecision {
    AlreadyDone,
    Fetch,
}

/// An existing destination file completes the job at once: no network
/// request is issued and the fetch is treated as already complete, which
/// makes the pipeline resumable.
pub fn plan_fetch(dest_exists: bool) -> (r: FetchDecision)
    ensures
        (r == FetchDecision::AlreadyDone) <==> dest_exists,
{
    if dest_exists {
        FetchDecision::AlreadyDone
    } else {
        FetchDecision::Fetch
    }
}

/// The least declared content length accepted for a fetched segment.
pub const MIN_SEGMENT_LENGTH: u64 = 100;

/// A response that declares a content length under the sanity threshold is
/// the transient `Download` failure, to be requeued; any other response,
/// with or without a declared length, proceeds.
pub fn classify_content_length(len: Option<u64>) -> (r: Result<(), Error>)
    ensures
        match len {
            Some(l) => (l < MIN_SEGMENT_LENGTH ==> r == Err::<(), Error>(Error::Download)) && (
            l >= MIN_SEGMENT_LENGTH ==> r == Ok::<(), Error>(())),
            None => r == Ok::<(), Error>(()),
        },
{
    match len {
        Some(l) => {
            if l < MIN_SEGMENT_LENGTH {
                Err(Error::Download)
            } else {
                Ok(())
            }
        },
        None => Ok(()),
    }
}

} // verus!
