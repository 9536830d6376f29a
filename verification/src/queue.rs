//! The bounded FIFO of sink-ready buffers that connects every input to the
//! output pool.
//!
//! The queue itself is a sequential structure with an exact contract; the
//! blocking that spec'd backpressure asks for is built on it by the caller:
//! a refused enqueue means "wait and retry", an empty dequeue on an open
//! queue means "wait", a dequeue on a closed empty queue means "stop".

use vstd::prelude::*;

verus! {

/// What a bounded FIFO does to its contents on enqueue: appended when
/// there is room, refused when full.
pub open spec fn spec_try_enqueue(items: Seq<Seq<u8>>, capacity: nat, x: Seq<u8>) -> Option<
    Seq<Seq<u8>>,
> {
    if items.len() < capacity {
        Option::Some(items.push(x))
    } else {
        Option::None
    }
}

/// What a FIFO dequeue returns and leaves: the oldest item, exactly once.
pub open spec fn spec_dequeue(items: Seq<Seq<u8>>) -> Option<(Seq<u8>, Seq<Seq<u8>>)> {
    if items.len() > 0 {
        Option::Some((items.first(), items.drop_first()))
    } else {
        Option::None
    }
}

/// A bounded FIFO of encoded records, capacity fixed at creation.
pub struct Queue {
    items: Vec<Vec<u8>>,
    capacity: usize,
    closed: bool,
}

pub struct QueueModel {
    pub items: Seq<Seq<u8>>,
    pub capacity: nat,
    pub closed: bool,
}

impl View for Queue {
    type V = QueueModel;

    closed spec fn view(&self) -> QueueModel {
        QueueModel {
            items: self.items@.map_values(|v: Vec<u8>| v@),
            capacity: self.capacity as nat,
            closed: self.closed,
        }
    }
}

/// What a dequeue attempt found.
pub enum Dequeued {
    /// The oldest queued buffer, delivered to this caller alone.
    Item(Vec<u8>),
    /// Nothing queued yet; the producers are still running, so wait.
    Empty,
    /// Nothing queued and no producer is left: end of stream.
    Closed,
}

impl Queue {
    /// The queue never holds more than its capacity.
    pub open spec fn wf(self) -> bool {
        self@.items.len() <= self@.capacity
    }

    /// A fresh open queue with the given capacity.
    pub fn new(capacity: usize) -> (q: Queue)
        requires
            capacity >= 1,
        ensures
            q.wf(),
            q@.items == Seq::<Seq<u8>>::empty(),
            q@.capacity == capacity as nat,
            !q@.closed,
    {
        let q = Queue { items: Vec::new(), capacity, closed: false };
        proof {
            assert(q@.items =~= Seq::<Seq<u8>>::empty());
        }
        q
    }

    pub fn len(&self) -> (n: usize)
        ensures
            n as nat == self@.items.len(),
    {
        self.items.len()
    }

    pub fn capacity(&self) -> (n: usize)
        ensures
            n as nat == self@.capacity,
    {
        self.capacity
    }

    pub fn is_closed(&self) -> (c: bool)
        ensures
            c == self@.closed,
    {
        self.closed
    }

    /// Appends a buffer when the queue is open and has room; a full or
    /// closed queue refuses it unchanged, and the caller applies
    /// backpressure by waiting and retrying. Nothing already queued is
    /// touched either way.
    pub fn try_enqueue(&mut self, buf: Vec<u8>) -> (r: Result<(), Vec<u8>>)
        requires
            old(self).wf(),
        ensures
            final(self).wf(),
            final(self)@.capacity == old(self)@.capacity,
            final(self)@.closed == old(self)@.closed,
            match r {
                Ok(()) => !old(self)@.closed && spec_try_enqueue(
                    old(self)@.items,
                    old(self)@.capacity,
                    buf@,
                ) == Option::Some(final(self)@.items),
                Err(back) => back@ == buf@ && final(self)@.items == old(self)@.items
                    && (old(self)@.closed || spec_try_enqueue(
                    old(self)@.items,
                    old(self)@.capacity,
                    buf@,
                ) == Option::<Seq<Seq<u8>>>::None),
            },
    {
        if self.closed || self.items.len() >= self.capacity {
            return Err(buf);
        }
        let ghost prev = self.items@.map_values(|v: Vec<u8>| v@);
        let ghost bufv = buf@;
        self.items.push(buf);
        proof {
            assert(self.items@.map_values(|v: Vec<u8>| v@) =~= prev.push(bufv));
        }
        Ok(())
    }

    /// Removes and returns the oldest buffer; each buffer leaves the queue
    /// exactly once. An empty open queue says wait; an empty closed queue
    /// says end of stream.
    pub fn dequeue(&mut self) -> (r: Dequeued)
        requires
            old(self).wf(),
        ensures
            final(self).wf(),
            final(self)@.capacity == old(self)@.capacity,
            final(self)@.closed == old(self)@.closed,
            match r {
                Dequeued::Item(buf) => spec_dequeue(old(self)@.items) == Option::Some(
                    (buf@, final(self)@.items),
                ),
                Dequeued::Empty => old(self)@.items.len() == 0 && !old(self)@.closed
                    && final(self)@.items == old(self)@.items,
                Dequeued::Closed => old(self)@.items.len() == 0 && old(self)@.closed
                    && final(self)@.items == old(self)@.items,
            },
    {
        if self.items.len() == 0 {
            if self.closed {
                return Dequeued::Closed;
            } else {
                return Dequeued::Empty;
            }
        }
        let ghost prev = self.items@.map_values(|v: Vec<u8>| v@);
        let buf = self.items.remove(0);
        proof {
            assert(self.items@.map_values(|v: Vec<u8>| v@) =~= prev.drop_first());
        }
        Dequeued::Item(buf)
    }

    /// Marks the producing side finished; pending buffers still drain, and
    /// a dequeue on the emptied queue then reports end of stream.
    pub fn close(&mut self)
        requires
            old(self).wf(),
        ensures
            final(self).wf(),
            final(self)@.items == old(self)@.items,
            final(self)@.capacity == old(self)@.capacity,
            final(self)@.closed,
    {
        self.closed = true;
    }
}

/// Backpressure and single delivery on a queue of capacity one: a first
/// enqueue succeeds, a second is refused while the first record sits in
/// the queue, the one dequeue hands back exactly the record that was
/// enqueued, and only then does the blocked enqueue go through. No record
/// is lost or duplicated between an accepted enqueue and its dequeue.
pub proof fn lemma_queue_backpressure(x: Seq<u8>, y: Seq<u8>)
    ensures
        spec_try_enqueue(Seq::<Seq<u8>>::empty(), 1, x) == Option::Some(seq![x]),
        spec_try_enqueue(seq![x], 1, y) == Option::<Seq<Seq<u8>>>::None,
        spec_dequeue(seq![x]) == Option::Some((x, Seq::<Seq<u8>>::empty())),
        spec_try_enqueue(Seq::<Seq<u8>>::empty(), 1, y) == Option::Some(seq![y]),
{
    assert(Seq::<Seq<u8>>::empty().push(x) =~= seq![x]);
    assert(Seq::<Seq<u8>>::empty().push(y) =~= seq![y]);
    assert(seq![x].first() == x);
    assert(seq![x].drop_first() =~= Seq::<Seq<u8>>::empty());
}

/// FIFO order: whatever the interleaving of enqueues, two records accepted
/// in some order come out in that order, because an accepted enqueue only
/// appends and a dequeue only takes the front.
pub proof fn lemma_queue_fifo(items: Seq<Seq<u8>>, capacity: nat, x: Seq<u8>)
    requires
        spec_try_enqueue(items, capacity, x) is Some,
    ensures
        forall|k: int|
            0 <= k < items.len() ==> spec_try_enqueue(items, capacity, x)->Some_0[k] == items[k],
        spec_try_enqueue(items, capacity, x)->Some_0.len() == items.len() + 1,
        spec_try_enqueue(items, capacity, x)->Some_0.last() == x,
{
}

} // verus!
