//! The outbound queue: a bounded first-in, first-out queue of batches between
//! the scheduling loop and the sender. Sending never waits: a batch that
//! finds the queue full or shut down is dropped.

use crate::batch::{ArcBatch, BatchView};
use crate::counter::{Counter, CounterType, CounterValue, CounterView};
use std::collections::VecDeque;
use vstd::prelude::*;

verus! {

/// Why the queue did not take a batch.
#[derive(Clone, Copy, Debug, PartialEq, Eq, Structural)]
pub enum SendError {
    /// The queue holds as many batches as it has room for.
    Full,
    /// The receiving side has been shut down.
    Terminated,
}

/// A bounded queue of batches.
pub struct Queue {
    items: VecDeque<ArcBatch>,
    capacity: usize,
    terminated: bool,
}

/// The name of the counter that reports the queue's backlog.
pub open spec fn pending_name() -> Seq<char> {
    "pending"@
}

/// The counters that a queue with `pending` batches reports.
pub open spec fn backlog_counters(pending: nat) -> Seq<CounterView> {
    seq![(pending_name(), CounterType::Gauged, CounterValue::Unsigned(pending as u64))]
}

/// What a queue holds after it is offered a batch: the batch comes last
/// where the queue is neither shut down nor full, else nothing changes.
pub open spec fn offered(
    pending: Seq<BatchView>,
    capacity: nat,
    terminated: bool,
    batch: BatchView,
) -> Seq<BatchView> {
    if terminated || pending.len() >= capacity {
        pending
    } else {
        pending.push(batch)
    }
}

impl Queue {
    /// The queue never holds more than its capacity.
    pub closed spec fn wf(&self) -> bool {
        self.items@.len() <= self.capacity
    }

    /// The batches in the queue, oldest first.
    pub closed spec fn pending(&self) -> Seq<BatchView> {
        self.items.deep_view()
    }

    /// How many batches the queue has room for.
    pub closed spec fn room(&self) -> nat {
        self.capacity as nat
    }

    /// Whether the receiving side has been shut down.
    pub closed spec fn is_terminated(&self) -> bool {
        self.terminated
    }

    /// A well-formed queue holds no more batches than it has room for, and
    /// its room fits a `usize`.
    pub proof fn lemma_bounded(&self)
        requires
            self.wf(),
        ensures
            self.pending().len() <= self.room() <= usize::MAX,
    {
    }

    /// An empty queue with room for `capacity` batches.
    pub fn bounded(capacity: usize) -> (queue: Queue)
        ensures
            queue.wf(),
            queue.pending() == Seq::<BatchView>::empty(),
            queue.room() == capacity,
            !queue.is_terminated(),
    {
        let queue = Queue { items: VecDeque::new(), capacity, terminated: false };
        queue
    }

    /// How many batches are in the queue.
    pub fn len(&self) -> (len: usize)
        ensures
            len == self.pending().len(),
    {
        self.items.len()
    }

    /// Whether the queue holds no batch.
    pub fn is_empty(&self) -> (empty: bool)
        ensures
            empty == (self.pending().len() == 0),
    {
        self.items.len() == 0
    }

    /// How many batches the queue has room for.
    pub fn capacity(&self) -> (capacity: usize)
        ensures
            capacity == self.room(),
    {
        self.capacity
    }

    /// Whether the receiving side has been shut down.
    pub fn terminated(&self) -> (terminated: bool)
        ensures
            terminated == self.is_terminated(),
    {
        self.terminated
    }

    /// Offers a batch to the queue without waiting. The batch comes last in
    /// the queue, unless the queue is shut down or full: then the queue stays
    /// as it is and the batch is dropped.
    pub fn send(&mut self, batch: ArcBatch) -> (sent: Result<(), SendError>)
        requires
            old(self).wf(),
        ensures
            final(self).wf(),
            final(self).room() == old(self).room(),
            final(self).is_terminated() == old(self).is_terminated(),
            final(self).pending() == offered(
                old(self).pending(),
                old(self).room(),
                old(self).is_terminated(),
                batch.deep_view(),
            ),
            sent == if old(self).is_terminated() {
                Err::<(), SendError>(SendError::Terminated)
            } else if old(self).pending().len() >= old(self).room() {
                Err::<(), SendError>(SendError::Full)
            } else {
                Ok::<(), SendError>(())
            },
    {
        if self.terminated {
            return Err(SendError::Terminated);
        }
        if self.items.len() >= self.capacity {
            return Err(SendError::Full);
        }
        self.items.push_back(batch);
        Ok(())
    }

    /// Takes the oldest batch out of the queue, if there is one.
    pub fn recv(&mut self) -> (received: Option<ArcBatch>)
        requires
            old(self).wf(),
        ensures
            final(self).wf(),
            final(self).room() == old(self).room(),
            final(self).is_terminated() == old(self).is_terminated(),
            received is Some <==> old(self).pending().len() > 0,
            received matches Some(batch) ==> batch.deep_view() == old(self).pending()[0]
                && final(self).pending() == old(self).pending().drop_first(),
            received is None ==> final(self).pending() == old(self).pending(),
    {
        let received = self.items.pop_front();
        received
    }

    /// Shuts the receiving side down: from now on the queue takes no batch.
    /// What it holds stays to be received.
    pub fn terminate(&mut self)
        requires
            old(self).wf(),
        ensures
            final(self).wf(),
            final(self).is_terminated(),
            final(self).room() == old(self).room(),
            final(self).pending() == old(self).pending(),
    {
        self.terminated = true;
    }

    /// The queue's counters: its backlog, as a gauge.
    pub fn get_counters(&self) -> (counters: Vec<Counter>)
        ensures
            counters.deep_view() == backlog_counters(self.pending().len()),
    {
        proof {
            reveal_strlit("pending");
        }
        let mut counters: Vec<Counter> = Vec::new();
        counters.push(("pending", CounterType::Gauged, CounterValue::Unsigned(self.items.len() as u64)));
        counters
    }
}

/// A queue that holds as many batches as it has room for takes no more: the
/// batch offered is dropped and the queue's length stays as it was. So does
/// a queue that is shut down.
pub proof fn lemma_backpressure(
    pending: Seq<BatchView>,
    capacity: nat,
    terminated: bool,
    batch: BatchView,
)
    ensures
        pending.len() >= capacity ==> offered(pending, capacity, terminated, batch) == pending,
        terminated ==> offered(pending, capacity, terminated, batch) == pending,
        pending.len() <= capacity ==> offered(pending, capacity, terminated, batch).len()
            <= capacity,
        !terminated && pending.len() < capacity ==> offered(pending, capacity, terminated, batch)
            == pending.push(batch),
{
}

} // verus!
