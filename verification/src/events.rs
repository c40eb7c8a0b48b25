//! Time-ordered event queue driving the simulation.
//!
//! Pending events are ordered by the composite key
//! `(time_ms, kind, insertion order)`: earlier times first; at equal times
//! completions before arrivals, so a server finishes before the next
//! identical-tick request is routed; within the same time and kind the
//! original insertion order.  Insertion indices are pairwise distinct, so
//! the order is total and draining the queue is deterministic.

use vstd::prelude::*;

verus! {

/// A synthetic request: 1-based id, arriving at the tick equal to its id.
#[derive(Clone, Copy, PartialEq, Eq, Structural, Debug)]
pub struct Request {
    pub id: usize,
    pub arrival_time_ms: u64,
}

/// What a scheduled event does when popped.
#[derive(Clone, Copy, PartialEq, Eq, Structural, Debug)]
pub enum Event {
    /// A request arrives and must be routed.
    RequestArrival(Request),
    /// The request being served at the server with this index finishes.
    RequestComplete { server_id: usize, request_id: usize },
}

/// An event together with its queue key: its time and insertion index.
#[derive(Clone, Copy, PartialEq, Eq, Structural, Debug)]
pub struct ScheduledEvent {
    pub time_ms: u64,
    /// Insertion index, assigned by the queue; unique within one queue.
    pub seq: u64,
    pub event: Event,
}

/// Rank of an event kind at equal times: completions drain first.
pub open spec fn event_rank(e: Event) -> int {
    match e {
        Event::RequestComplete { .. } => 0,
        Event::RequestArrival(_) => 1,
    }
}

/// The strict total order in which the queue yields its entries.
pub open spec fn sched_lt(a: ScheduledEvent, b: ScheduledEvent) -> bool {
    ||| a.time_ms < b.time_ms
    ||| (a.time_ms == b.time_ms && event_rank(a.event) < event_rank(b.event))
    ||| (a.time_ms == b.time_ms && event_rank(a.event) == event_rank(b.event) && a.seq < b.seq)
}

/// Index of the entry the queue yields next: the first entry than which no
/// other is smaller.
pub open spec fn earliest_index(q: Seq<ScheduledEvent>) -> int
    decreases q.len(),
{
    if q.len() <= 1 {
        0
    } else {
        let m = earliest_index(q.drop_last());
        if sched_lt(q.last(), q[m]) {
            q.len() - 1
        } else {
            m
        }
    }
}

/// `earliest_index` is in range and picks a minimal entry.
pub proof fn lemma_earliest_index(q: Seq<ScheduledEvent>)
    requires
        q.len() > 0,
    ensures
        0 <= earliest_index(q) < q.len(),
        forall|j: int| 0 <= j < q.len() ==> !sched_lt(q[j], q[earliest_index(q)]),
    decreases q.len(),
{
    if q.len() > 1 {
        lemma_earliest_index(q.drop_last());
        let m = earliest_index(q.drop_last());
        assert(forall|j: int|
            0 <= j < q.len() - 1 ==> q.drop_last()[j] == q[j]);
        if sched_lt(q.last(), q[m]) {
            assert forall|j: int| 0 <= j < q.len() implies !sched_lt(
                q[j],
                q[earliest_index(q)],
            ) by {
                if j < q.len() - 1 {
                    assert(!sched_lt(q[j], q[m]));
                }
            }
        }
    }
}

/// The pending-event queue.  `next_seq` numbers insertions; entries keep
/// their insertion order, so their `seq` fields are strictly increasing.
pub struct EventQueue {
    entries: Vec<ScheduledEvent>,
    next_seq: u64,
}

impl View for EventQueue {
    type V = Seq<ScheduledEvent>;

    closed spec fn view(&self) -> Seq<ScheduledEvent> {
        self.entries@
    }
}

impl EventQueue {
    /// The insertion index the next scheduled event will carry.
    pub closed spec fn next_seq_spec(&self) -> u64 {
        self.next_seq
    }

    pub fn new() -> (q: EventQueue)
        ensures
            q@ == Seq::<ScheduledEvent>::empty(),
            q.next_seq_spec() == 0,
    {
        EventQueue { entries: Vec::new(), next_seq: 0 }
    }

    pub fn len(&self) -> (n: usize)
        ensures
            n == self@.len(),
    {
        self.entries.len()
    }

    /// Insert an event at the given time, behind all entries of the same
    /// key class that are already present.
    pub fn schedule(&mut self, time_ms: u64, event: Event)
        requires
            old(self).next_seq_spec() < u64::MAX,
        ensures
            final(self)@ == old(self)@.push(
                ScheduledEvent { time_ms, seq: old(self).next_seq_spec(), event },
            ),
            final(self).next_seq_spec() == old(self).next_seq_spec() + 1,
    {
        let seq = self.next_seq;
        self.entries.push(ScheduledEvent { time_ms, seq, event });
        self.next_seq = self.next_seq + 1;
    }

    /// Remove and return the entry with the smallest key, or `None` when
    /// the queue is empty.
    pub fn pop_earliest(&mut self) -> (r: Option<ScheduledEvent>)
        ensures
            old(self)@.len() == 0 ==> r is None && final(self)@ == old(self)@,
            old(self)@.len() > 0 ==> {
                &&& r == Some(old(self)@[earliest_index(old(self)@)])
                &&& final(self)@ == old(self)@.remove(earliest_index(old(self)@))
            },
            final(self).next_seq_spec() == old(self).next_seq_spec(),
    {
        if self.entries.len() == 0 {
            return None;
        }
        let ghost q = self.entries@;
        let mut best: usize = 0;
        let mut j: usize = 1;
        while j < self.entries.len()
            invariant
                self@ == q,
                1 <= j <= q.len(),
                best == earliest_index(q.take(j as int)),
                best < j,
            decreases q.len() - j,
        {
            let e = self.entries[j];
            let b = self.entries[best];
            proof {
                assert(q.take(j as int + 1).drop_last() =~= q.take(j as int));
                assert(q.take(j as int + 1).last() == q[j as int]);
            }
            let is_less = e.time_ms < b.time_ms
                || (e.time_ms == b.time_ms && rank_of(&e.event) < rank_of(&b.event))
                || (e.time_ms == b.time_ms && rank_of(&e.event) == rank_of(&b.event)
                    && e.seq < b.seq);
            if is_less {
                best = j;
            }
            j = j + 1;
        }
        proof {
            assert(q.take(q.len() as int) =~= q);
        }
        Some(self.entries.remove(best))
    }
}

/// Executable twin of [`event_rank`].
fn rank_of(e: &Event) -> (r: u64)
    ensures
        r as int == event_rank(*e),
{
    match e {
        Event::RequestComplete { .. } => 0,
        Event::RequestArrival(_) => 1,
    }
}

} // verus!
