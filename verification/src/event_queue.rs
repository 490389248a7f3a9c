//! The bounded log of fills and outs that the settlement layer drains.
//!
//! The queue keeps the newest events up to its capacity. A push onto a full
//! queue overwrites the oldest event. Every event ever pushed has a sequence
//! number, counted from 0; a reader that asks for events from a number the
//! queue no longer holds is told how many it missed.

use vstd::prelude::*;
use crate::book_side::copy_of;
use crate::order::Event;

verus! {

/// The last `n` items of `s`, or all of it if it has fewer.
pub open spec fn keep_last<T>(s: Seq<T>, n: nat) -> Seq<T> {
    if s.len() <= n {
        s
    } else {
        s.skip(s.len() - n)
    }
}

/// The state of the queue as contracts see it.
pub struct QueueView {
    pub capacity: nat,
    /// The events held, oldest first.
    pub events: Seq<Event>,
    /// How many events were ever pushed; the next one gets this number.
    pub seq_num: nat,
}

/// What a reader gets back.
pub struct Backlog {
    /// How many events the reader will never see: they were overwritten.
    pub missed: nat,
    /// The events from the reader's number on that are still held.
    pub events: Seq<Event>,
}

impl QueueView {
    /// The invariant of the queue: it holds no more events than it has
    /// room for, nor more than were ever pushed.
    pub open spec fn wf(self) -> bool {
        self.events.len() <= self.capacity && self.events.len() <= self.seq_num
    }

    /// A queue that nothing was ever pushed to.
    pub open spec fn empty(capacity: nat) -> QueueView {
        QueueView { capacity, events: Seq::empty(), seq_num: 0 }
    }

    /// The sequence number of the oldest event held.
    pub open spec fn first_seq(self) -> int {
        self.seq_num - self.events.len()
    }

    /// The queue after one more event: it is the newest, and the oldest
    /// makes room for it if there is none.
    pub open spec fn push(self, event: Event) -> QueueView {
        QueueView {
            capacity: self.capacity,
            events: keep_last(self.events.push(event), self.capacity),
            seq_num: self.seq_num + 1,
        }
    }

    /// The queue after pushing `events` one after the other.
    pub open spec fn push_all(self, events: Seq<Event>) -> QueueView {
        QueueView {
            capacity: self.capacity,
            events: keep_last(self.events + events, self.capacity),
            seq_num: self.seq_num + events.len(),
        }
    }

    /// The queue without its oldest event, if it has one.
    pub open spec fn pop(self) -> QueueView {
        if self.events.len() == 0 {
            self
        } else {
            QueueView { events: self.events.skip(1), ..self }
        }
    }

    /// What a reader whose next unread event has number `next` is owed.
    pub open spec fn since(self, next: nat) -> Backlog {
        if next <= self.first_seq() {
            Backlog { missed: (self.first_seq() - next) as nat, events: self.events }
        } else if next <= self.seq_num {
            Backlog { missed: 0, events: self.events.skip(next - self.first_seq()) }
        } else {
            Backlog { missed: 0, events: Seq::empty() }
        }
    }
}

/// Pushing events in two batches is pushing them in one.
pub proof fn lemma_push_all_twice(q: QueueView, a: Seq<Event>, b: Seq<Event>)
    ensures
        q.push_all(a).push_all(b) == q.push_all(a + b),
        q.wf() ==> q.push_all(seq![]) == q,
        forall|e: Event| q.push(e) == #[trigger] q.push_all(seq![e]),
{
    let c = q.capacity;
    let first = keep_last(q.events + a, c);
    assert(keep_last(first + b, c) =~= keep_last(q.events + (a + b), c));
    assert(q.events + Seq::<Event>::empty() =~= q.events);
}

/// The event queue: a ring of `capacity` entries.
pub struct EventQueue {
    ring: Vec<Event>,
    head: usize,
    count: usize,
    seq_num: u64,
}

/// What the reader of a queue gets back.
pub struct Unread {
    /// How many events the reader will never see: they were overwritten.
    pub missed: u64,
    /// The events from the reader's number on that are still held.
    pub events: Vec<Event>,
}

impl View for Unread {
    type V = Backlog;

    open spec fn view(&self) -> Backlog {
        Backlog { missed: self.missed as nat, events: self.events@ }
    }
}

/// The ring index `steps` entries after `head`.
pub open spec fn ring_index(head: int, steps: int, capacity: int) -> int {
    if head + steps < capacity {
        head + steps
    } else {
        head + steps - capacity
    }
}

impl View for EventQueue {
    type V = QueueView;

    closed spec fn view(&self) -> QueueView {
        QueueView {
            capacity: self.ring@.len(),
            events: Seq::new(
                self.count as nat,
                |i: int| self.ring@[ring_index(self.head as int, i, self.ring@.len() as int)],
            ),
            seq_num: self.seq_num as nat,
        }
    }
}

impl EventQueue {
    /// The invariant every operation keeps: the ring holds no more events
    /// than it has entries or than were ever pushed.
    pub closed spec fn wf(&self) -> bool {
        &&& self.count <= self.ring@.len()
        &&& self.count <= self.seq_num
        &&& (self.head < self.ring@.len() || self.head == 0)
    }

    /// A well-formed queue has a well-formed view, and its count fits its
    /// type.
    pub proof fn lemma_wf(&self)
        requires
            self.wf(),
        ensures
            self@.wf(),
            self@.seq_num <= u64::MAX,
    {
    }

    /// An empty queue that holds up to `capacity` events.
    pub fn new(capacity: usize) -> (queue: EventQueue)
        ensures
            queue.wf(),
            queue@ == QueueView::empty(capacity as nat),
    {
        let mut ring: Vec<Event> = Vec::new();
        let mut i: usize = 0;
        while i < capacity
            invariant
                i <= capacity,
                ring@.len() == i,
            decreases capacity - i,
        {
            ring.push(Event::blank());
            i = i + 1;
        }
        let queue = EventQueue { ring, head: 0, count: 0, seq_num: 0 };
        assert(queue@.events =~= Seq::<Event>::empty());
        queue
    }

    /// A queue of the given capacity that holds `events`, the newest of
    /// which was the `seq_num`-th ever pushed; or nothing, if the events
    /// are more than the capacity or more than that count.
    pub fn restore(capacity: usize, seq_num: u64, events: &Vec<Event>) -> (r: Option<EventQueue>)
        ensures
            match r {
                Some(queue) => queue.wf() && queue@ == (QueueView {
                    capacity: capacity as nat,
                    events: events@,
                    seq_num: seq_num as nat,
                }),
                None => events@.len() > capacity || events@.len() > seq_num,
            },
    {
        if events.len() > capacity || events.len() as u64 > seq_num {
            return None;
        }
        let mut queue = EventQueue::new(capacity);
        queue.seq_num = seq_num - events.len() as u64;
        queue.push_all(events);
        Some(queue)
    }

    /// A copy of the queue: the same events and the same count.
    pub fn duplicate(&self) -> (r: EventQueue)
        ensures
            r@ == self@,
            self.wf() ==> r.wf(),
    {
        EventQueue {
            ring: copy_of(&self.ring),
            head: self.head,
            count: self.count,
            seq_num: self.seq_num,
        }
    }

    /// How many events the queue has room for.
    pub fn capacity(&self) -> (r: usize)
        ensures
            r == self@.capacity,
    {
        self.ring.len()
    }

    /// The number of events held.
    pub fn len(&self) -> (r: usize)
        ensures
            r == self@.events.len(),
    {
        self.count
    }

    /// Whether no event is held.
    pub fn is_empty(&self) -> (r: bool)
        ensures
            r == (self@.events.len() == 0),
    {
        self.count == 0
    }

    /// Whether the next push overwrites an event.
    pub fn is_full(&self) -> (r: bool)
        ensures
            r == (self@.events.len() == self@.capacity),
    {
        self.count == self.ring.len()
    }

    /// How many events were ever pushed.
    pub fn seq_num(&self) -> (r: u64)
        ensures
            r == self@.seq_num,
    {
        self.seq_num
    }

    /// The sequence number of the oldest event held.
    pub fn first_seq(&self) -> (r: u64)
        requires
            self.wf(),
        ensures
            r == self@.first_seq(),
    {
        self.seq_num - self.count as u64
    }

    fn slot(&self, steps: usize) -> (r: usize)
        requires
            self.wf(),
            steps < self.ring@.len(),
        ensures
            r == ring_index(self.head as int, steps as int, self.ring@.len() as int),
            r < self.ring@.len(),
    {
        let room: usize = self.ring.len() - self.head;
        if steps < room {
            self.head + steps
        } else {
            steps - room
        }
    }

    /// The event `at` places after the oldest.
    pub fn get(&self, at: usize) -> (r: Option<Event>)
        requires
            self.wf(),
        ensures
            r == if at < self@.events.len() {
                Some(self@.events[at as int])
            } else {
                None
            },
    {
        if at < self.count {
            let i: usize = self.slot(at);
            Some(self.ring[i])
        } else {
            None
        }
    }

    /// Appends an event, overwriting the oldest if the queue is full.
    pub fn push(&mut self, event: Event)
        requires
            old(self).wf(),
            old(self)@.seq_num < u64::MAX,
        ensures
            final(self).wf(),
            final(self)@ == old(self)@.push(event),
    {
        let capacity: usize = self.ring.len();
        self.seq_num = self.seq_num + 1;
        if capacity == 0 {
            assert(self@.events =~= old(self)@.push(event).events);
            return ;
        }
        if self.count < capacity {
            let i: usize = self.slot(self.count);
            self.ring.set(i, event);
            self.count = self.count + 1;
            assert(self@.events =~= old(self)@.push(event).events);
        } else {
            let i: usize = self.head;
            self.ring.set(i, event);
            self.head = if self.head + 1 < capacity {
                self.head + 1
            } else {
                0
            };
            assert(self@.events =~= old(self)@.push(event).events);
        }
    }

    /// Appends the events in order.
    pub fn push_all(&mut self, events: &Vec<Event>)
        requires
            old(self).wf(),
            old(self)@.seq_num + events@.len() <= u64::MAX,
        ensures
            final(self).wf(),
            final(self)@ == old(self)@.push_all(events@),
    {
        let mut i: usize = 0;
        while i < events.len()
            invariant
                self.wf(),
                i <= events@.len(),
                old(self)@.seq_num + events@.len() <= u64::MAX,
                self@ == old(self)@.push_all(events@.take(i as int)),
            decreases events@.len() - i,
        {
            let ghost before = self@;
            self.push(events[i]);
            proof {
                lemma_push_all_twice(old(self)@, events@.take(i as int), seq![events@[i as int]]);
                lemma_push_all_twice(before, seq![], seq![]);
                assert(events@.take(i as int) + seq![events@[i as int]] =~= events@.take(i + 1));
            }
            i = i + 1;
        }
        assert(events@.take(events@.len() as int) =~= events@);
    }

    /// Takes the oldest event out of the queue.
    pub fn pop_front(&mut self) -> (r: Option<Event>)
        requires
            old(self).wf(),
        ensures
            final(self).wf(),
            final(self)@ == old(self)@.pop(),
            r == if old(self)@.events.len() > 0 {
                Some(old(self)@.events[0])
            } else {
                None
            },
    {
        if self.count == 0 {
            return None;
        }
        let capacity: usize = self.ring.len();
        let event: Event = self.ring[self.head];
        self.head = if self.head + 1 < capacity {
            self.head + 1
        } else {
            0
        };
        self.count = self.count - 1;
        assert(self@.events =~= old(self)@.events.skip(1));
        Some(event)
    }

    /// The events a reader has not seen yet, given the sequence number of
    /// its next unread event, and how many it missed for good.
    pub fn events_since(&self, next: u64) -> (r: Unread)
        requires
            self.wf(),
        ensures
            r@ == self@.since(next as nat),
    {
        let first: u64 = self.first_seq();
        let mut events: Vec<Event> = Vec::new();
        if next > self.seq_num {
            return Unread { missed: 0, events };
        }
        let (missed, from): (u64, usize) = if next <= first {
            (first - next, 0usize)
        } else {
            (0u64, (next - first) as usize)
        };
        let mut i: usize = from;
        while i < self.count
            invariant
                self.wf(),
                from <= i <= self.count,
                events@.len() == i - from,
                forall|k: int| 0 <= k < i - from ==> #[trigger] events@[k] == self@.events[from + k],
            decreases self.count - i,
        {
            let j: usize = self.slot(i);
            events.push(self.ring[j]);
            i = i + 1;
        }
        assert(events@ =~= self@.events.skip(from as int));
        assert(self@.events.skip(0) =~= self@.events);
        Unread { missed, events }
    }
}

} // verus!
