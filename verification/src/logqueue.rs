//! The bounded queue of the usage log. A request is never held up by the log: a
//! row that does not fit is dropped and counted.

use crate::pipeline::UsageLogRow;
use vstd::prelude::*;

verus! {

/// How many rows are written at a time.
pub const BATCH: usize = 128;

/// The queue: the rows that wait, how many are being written, and how many were
/// lost.
#[derive(Debug)]
pub struct UsageLogQueue {
    pending: Vec<UsageLogRow>,
    capacity: usize,
    in_flight: usize,
    dropped: u64,
}

/// What a `UsageLogQueue` holds.
pub struct QueueModel {
    pub pending: Seq<UsageLogRow>,
    pub capacity: nat,
    pub in_flight: nat,
    pub dropped: u64,
}

impl View for UsageLogQueue {
    type V = QueueModel;

    closed spec fn view(&self) -> QueueModel {
        QueueModel {
            pending: self.pending@,
            capacity: self.capacity as nat,
            in_flight: self.in_flight as nat,
            dropped: self.dropped,
        }
    }
}

/// Whether a queue is within its bounds.
pub open spec fn queue_wf(q: QueueModel) -> bool {
    &&& 0 < q.capacity <= usize::MAX / 8
    &&& q.pending.len() <= q.capacity
    &&& q.in_flight <= BATCH
}

/// One more lost row; the count wraps at 64 bits.
pub open spec fn one_lost(n: u64) -> u64 {
    if n == u64::MAX {
        0
    } else {
        (n + 1) as u64
    }
}

/// A queue after a row was offered to it.
pub open spec fn offered(q: QueueModel, row: UsageLogRow) -> QueueModel {
    if q.pending.len() < q.capacity {
        QueueModel { pending: q.pending.push(row), ..q }
    } else {
        QueueModel { dropped: one_lost(q.dropped), ..q }
    }
}

/// How many rows the next batch has.
pub open spec fn batch_len(q: QueueModel) -> int {
    if q.in_flight > 0 {
        0
    } else if q.pending.len() < BATCH {
        q.pending.len() as int
    } else {
        BATCH as int
    }
}

impl UsageLogQueue {
    /// An empty queue.
    pub fn new(capacity: usize) -> (r: Self)
        requires
            0 < capacity <= usize::MAX / 8,
        ensures
            queue_wf(r@),
            r@ == (QueueModel {
                pending: Seq::empty(),
                capacity: capacity as nat,
                in_flight: 0,
                dropped: 0,
            }),
    {
        UsageLogQueue { pending: Vec::new(), capacity, in_flight: 0, dropped: 0 }
    }

    fn lose(&mut self)
        ensures
            final(self)@ == (QueueModel { dropped: one_lost(old(self)@.dropped), ..old(self)@ }),
    {
        if self.dropped == u64::MAX {
            self.dropped = 0;
        } else {
            self.dropped = self.dropped + 1;
        }
    }

    /// Offers a row: it waits behind the others, or, where the queue is full, it
    /// is dropped and counted.
    pub fn enqueue(&mut self, row: UsageLogRow)
        requires
            queue_wf(old(self)@),
        ensures
            queue_wf(final(self)@),
            final(self)@ == offered(old(self)@, row),
    {
        if self.pending.len() < self.capacity {
            self.pending.push(row);
        } else {
            self.lose();
        }
    }

    /// Takes the rows to be written next, the oldest first; none while others
    /// are being written.
    pub fn take_batch(&mut self) -> (r: Vec<UsageLogRow>)
        requires
            queue_wf(old(self)@),
        ensures
            queue_wf(final(self)@),
            r@ == old(self)@.pending.take(batch_len(old(self)@)),
            final(self)@ == (QueueModel {
                pending: old(self)@.pending.skip(batch_len(old(self)@)),
                in_flight: (old(self)@.in_flight + r@.len()) as nat,
                ..old(self)@
            }),
    {
        if self.in_flight > 0 {
            let none: Vec<UsageLogRow> = Vec::new();
            assert(self.pending@.take(0) =~= none@);
            assert(self.pending@.skip(0) =~= self.pending@);
            return none;
        }
        let n: usize = if self.pending.len() < BATCH {
            self.pending.len()
        } else {
            BATCH
        };
        let rest = self.pending.split_off(n);
        let mut batch: Vec<UsageLogRow> = rest;
        std::mem::swap(&mut batch, &mut self.pending);
        self.in_flight = n;
        batch
    }

    /// Takes note that one row of the batch was written, or was lost.
    pub fn settle_row(&mut self, written: bool)
        requires
            queue_wf(old(self)@),
            old(self)@.in_flight > 0,
        ensures
            queue_wf(final(self)@),
            final(self)@ == (QueueModel {
                in_flight: (old(self)@.in_flight - 1) as nat,
                dropped: if written {
                    old(self)@.dropped
                } else {
                    one_lost(old(self)@.dropped)
                },
                ..old(self)@
            }),
    {
        self.in_flight = self.in_flight - 1;
        if !written {
            self.lose();
        }
    }

    /// How many rows were lost.
    pub fn dropped(&self) -> (r: u64)
        ensures
            r == self@.dropped,
    {
        self.dropped
    }

    /// How many rows are not written yet.
    pub fn depth(&self) -> (r: u64)
        requires
            queue_wf(self@),
        ensures
            r == self@.pending.len() + self@.in_flight,
    {
        (self.pending.len() + self.in_flight) as u64
    }
}

/// A batch and what stays behind are the rows in the order in which they came.
pub proof fn law_rows_are_written_in_order(q: QueueModel)
    ensures
        q.pending.take(batch_len(q)) + q.pending.skip(batch_len(q)) == q.pending,
{
    assert(q.pending.take(batch_len(q)) + q.pending.skip(batch_len(q)) =~= q.pending);
}

/// A row that is offered is either the last one that waits, or counted as lost.
pub proof fn law_no_row_vanishes(q: QueueModel, row: UsageLogRow)
    requires
        queue_wf(q),
    ensures
        offered(q, row).pending.len() > 0 && offered(q, row).pending.last() == row || offered(
            q,
            row,
        ).dropped == one_lost(q.dropped),
        q.pending.len() <= offered(q, row).pending.len() <= q.capacity,
{
}

/// A row is taken in while there is room, at the end and alone; where there is no
/// room it is counted as lost and the queue stays as it is.
pub proof fn law_full_queues_count_what_they_lose(q: QueueModel, row: UsageLogRow)
    requires
        queue_wf(q),
        q.dropped < u64::MAX,
    ensures
        q.pending.len() < q.capacity ==> offered(q, row).pending == q.pending.push(row) && offered(
            q,
            row,
        ).dropped == q.dropped,
        q.pending.len() == q.capacity ==> offered(q, row).pending == q.pending && offered(
            q,
            row,
        ).dropped == q.dropped + 1,
        offered(q, row).capacity == q.capacity && offered(q, row).in_flight == q.in_flight,
{
}

/// One batch is under way at a time, of all that waits up to 128 rows.
pub proof fn law_one_batch_at_a_time(q: QueueModel)
    ensures
        q.in_flight > 0 ==> batch_len(q) == 0,
        q.in_flight == 0 && q.pending.len() <= 128 ==> batch_len(q) == q.pending.len(),
        q.in_flight == 0 && q.pending.len() > 128 ==> batch_len(q) == 128,
{
}

} // verus!
