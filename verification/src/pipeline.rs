//! The bookkeeping of the parallel pipeline: its sizing rules and the batch
//! ledger. One producer pulls batches, `n_threads - 2` workers transform
//! them, one consumer drains the outputs; both queues are bounded to
//! `n_threads + 2` slots, so a full queue blocks its sender. The ledger
//! counts one batch through the four stages and shows that draining the
//! pipeline delivers every submitted batch exactly once; the thread and
//! channel plumbing that realises these rules lives outside the library.

use vstd::prelude::*;

verus! {

/// The thread budget is valid when it leaves at least one worker beside the
/// producer and the consumer.
pub open spec fn valid_thread_count(n_threads: int) -> bool {
    n_threads > 2
}

/// The bounded capacity of each of the two queues.
pub fn pipeline_queue_capacity(n_threads: usize) -> (r: usize)
    requires
        valid_thread_count(n_threads as int),
        n_threads + 2 <= usize::MAX,
    ensures
        r == n_threads + 2,
{
    n_threads + 2
}

/// How many worker threads the budget leaves after the producer and the
/// consumer.
pub fn pipeline_worker_count(n_threads: usize) -> (r: usize)
    requires
        valid_thread_count(n_threads as int),
    ensures
        r == n_threads - 2,
{
    n_threads - 2
}

/// The batch ledger: how many batches were submitted by the producer, taken
/// by a worker, completed onto the output queue, and delivered to the
/// terminal consumer.
pub struct PipelineLedger {
    pub capacity: usize,
    pub submitted: u64,
    pub taken: u64,
    pub completed: u64,
    pub delivered: u64,
}

impl PipelineLedger {
    /// The ledger's invariant: batches move through the stages in order and
    /// neither queue ever holds more than its capacity.
    pub open spec fn inv(&self) -> bool {
        &&& self.delivered <= self.completed <= self.taken <= self.submitted
        &&& self.submitted - self.taken <= self.capacity
        &&& self.completed - self.delivered <= self.capacity
    }

    /// Whether the pipeline has wound down: the source is exhausted and both
    /// queues are drained.
    pub open spec fn drained(&self) -> bool {
        &&& self.taken == self.submitted
        &&& self.completed == self.taken
        &&& self.delivered == self.completed
    }

    /// An idle pipeline over queues of the given capacity.
    pub fn new(capacity: usize) -> (r: PipelineLedger)
        ensures
            r.capacity == capacity,
            r.submitted == 0,
            r.taken == 0,
            r.completed == 0,
            r.delivered == 0,
            r.inv(),
    {
        PipelineLedger { capacity, submitted: 0, taken: 0, completed: 0, delivered: 0 }
    }

    /// The producer pushes one batch onto the input queue; it blocks (so this
    /// may not be recorded) while the queue is full.
    pub fn produce(&mut self)
        requires
            old(self).inv(),
            old(self).submitted - old(self).taken < old(self).capacity,
            old(self).submitted < u64::MAX,
        ensures
            *final(self) == (PipelineLedger { submitted: (old(self).submitted + 1) as u64, ..*old(self) }),
            final(self).inv(),
    {
        self.submitted = self.submitted + 1;
    }

    /// A worker pops one batch from the input queue.
    pub fn take(&mut self)
        requires
            old(self).inv(),
            old(self).taken < old(self).submitted,
        ensures
            *final(self) == (PipelineLedger { taken: (old(self).taken + 1) as u64, ..*old(self) }),
            final(self).inv(),
    {
        self.taken = self.taken + 1;
    }

    /// A worker pushes one transformed output onto the output queue; it
    /// blocks while that queue is full.
    pub fn complete(&mut self)
        requires
            old(self).inv(),
            old(self).completed < old(self).taken,
            old(self).completed - old(self).delivered < old(self).capacity,
        ensures
            *final(self) == (PipelineLedger { completed: (old(self).completed + 1) as u64, ..*old(self) }),
            final(self).inv(),
    {
        self.completed = self.completed + 1;
    }

    /// The terminal consumer receives one output.
    pub fn deliver(&mut self)
        requires
            old(self).inv(),
            old(self).delivered < old(self).completed,
        ensures
            *final(self) == (PipelineLedger { delivered: (old(self).delivered + 1) as u64, ..*old(self) }),
            final(self).inv(),
    {
        self.delivered = self.delivered + 1;
    }
}

/// Once the source is exhausted and both queues are drained, the terminal
/// consumer has received exactly as many outputs as batches were submitted —
/// however many workers moved them.
pub proof fn lemma_drained_delivers_all(ledger: PipelineLedger)
    requires
        ledger.inv(),
        ledger.drained(),
    ensures
        ledger.delivered == ledger.submitted,
{
}

} // verus!
