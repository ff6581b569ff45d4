//! The bounded event queue at the heart of the data plane.
//!
//! The queue itself is crossbeam's `ArrayQueue`, a bounded FIFO ring.
//! Its contents and its construction-time bound are named below, and each
//! method the engine calls gets a wrapper whose contract states what the
//! crossbeam source shows: `push` appends when there is room and hands the
//! element back when there is none; `pop` removes the oldest element.

use vstd::prelude::*;
use crate::event::ZenithEvent;
use crate::error::ZenithError;

verus! {

#[verifier::external_type_specification]
#[verifier::external_body]
#[verifier::reject_recursive_types(T)]
pub struct ExArrayQueue<T>(crossbeam::queue::ArrayQueue<T>);

/// The events the queue holds, oldest first.
pub uninterp spec fn queue_view(q: crossbeam::queue::ArrayQueue<ZenithEvent>) -> Seq<ZenithEvent>;

/// The bound the queue was constructed with.
pub uninterp spec fn queue_bound(q: crossbeam::queue::ArrayQueue<ZenithEvent>) -> nat;

/// Relies on crossbeam's ArrayQueue::new: an empty queue with the given
/// capacity. `new` panics on a capacity of zero or one so large that its
/// slot stamps overflow; the precondition keeps both out. The upper
/// bound is a conservative allocation margin — the stamp arithmetic
/// itself tolerates far larger rings — and the boundary rejects larger
/// requests as construction failures.
#[verifier::external_body]
fn queue_new(capacity: usize) -> (q: crossbeam::queue::ArrayQueue<ZenithEvent>)
    requires
        1 <= capacity <= 0x1000_0000,
    ensures
        queue_view(q) == Seq::<ZenithEvent>::empty(),
        queue_bound(q) == capacity,
{
    crossbeam::queue::ArrayQueue::new(capacity)
}

/// Relies on crossbeam's ArrayQueue::push: appends the element at the tail
/// if the queue is not full, and otherwise returns it back unchanged.
#[verifier::external_body]
fn queue_push(q: &mut crossbeam::queue::ArrayQueue<ZenithEvent>, event: ZenithEvent) -> (r: Result<
    (),
    ZenithEvent,
>)
    ensures
        queue_bound(*final(q)) == queue_bound(*old(q)),
        queue_view(*old(q)).len() < queue_bound(*old(q)) ==> {
            &&& r is Ok
            &&& queue_view(*final(q)) == queue_view(*old(q)).push(event)
        },
        queue_view(*old(q)).len() >= queue_bound(*old(q)) ==> {
            &&& r == Result::<(), ZenithEvent>::Err(event)
            &&& queue_view(*final(q)) == queue_view(*old(q))
        },
{
    q.push(event)
}

/// Relies on crossbeam's ArrayQueue::pop: removes and returns the element
/// at the head — the oldest one — or returns None when the queue is empty.
#[verifier::external_body]
fn queue_pop(q: &mut crossbeam::queue::ArrayQueue<ZenithEvent>) -> (r: Option<ZenithEvent>)
    ensures
        queue_bound(*final(q)) == queue_bound(*old(q)),
        queue_view(*old(q)).len() == 0 ==> {
            &&& r is None
            &&& queue_view(*final(q)) == queue_view(*old(q))
        },
        queue_view(*old(q)).len() > 0 ==> {
            &&& r == Some(queue_view(*old(q))[0])
            &&& queue_view(*final(q)) == queue_view(*old(q)).skip(1)
        },
{
    q.pop()
}

/// Relies on crossbeam's ArrayQueue::len: the number of elements held.
#[verifier::external_body]
fn queue_len(q: &crossbeam::queue::ArrayQueue<ZenithEvent>) -> (r: usize)
    ensures
        r == queue_view(*q).len(),
{
    q.len()
}

/// Relies on crossbeam's ArrayQueue::is_empty: whether nothing is held.
#[verifier::external_body]
fn queue_is_empty(q: &crossbeam::queue::ArrayQueue<ZenithEvent>) -> (r: bool)
    ensures
        r == (queue_view(*q).len() == 0),
{
    q.is_empty()
}

/// The bounded multi-producer event queue: a thin verified shell around
/// the crossbeam ring. Capacity is fixed at construction; `push` is lossy
/// at the producer side and fails with `BufferFull` when every slot is
/// taken.
pub struct ZenithRingBuffer {
    queue: crossbeam::queue::ArrayQueue<ZenithEvent>,
}

impl View for ZenithRingBuffer {
    type V = Seq<ZenithEvent>;

    /// The events held, oldest first.
    closed spec fn view(&self) -> Seq<ZenithEvent> {
        queue_view(self.queue)
    }
}

impl ZenithRingBuffer {
    /// The slot count fixed at construction.
    pub closed spec fn spec_capacity(&self) -> nat {
        queue_bound(self.queue)
    }

    /// Build an empty ring of `capacity` slots.
    pub fn new(capacity: usize) -> (s: Self)
        requires
            1 <= capacity <= 0x1000_0000,
        ensures
            s@ == Seq::<ZenithEvent>::empty(),
            s.spec_capacity() == capacity,
    {
        ZenithRingBuffer { queue: queue_new(capacity) }
    }

    /// Enqueue an event, handing it back if the ring is full. The next
    /// push after `k` pushes and no pops can succeed only while `k` is
    /// below the capacity; at exactly the capacity it fails.
    pub fn try_push(&mut self, event: ZenithEvent) -> (r: Result<(), ZenithEvent>)
        ensures
            final(self).spec_capacity() == old(self).spec_capacity(),
            old(self)@.len() < old(self).spec_capacity() ==> {
                &&& r is Ok
                &&& final(self)@ == old(self)@.push(event)
            },
            old(self)@.len() >= old(self).spec_capacity() ==> {
                &&& r == Result::<(), ZenithEvent>::Err(event)
                &&& final(self)@ == old(self)@
            },
    {
        queue_push(&mut self.queue, event)
    }

    /// Enqueue an event; on a full ring the event is dropped and
    /// `BufferFull` is reported, exactly when the occupancy already equals
    /// the capacity.
    pub fn push(&mut self, event: ZenithEvent) -> (r: Result<(), ZenithError>)
        ensures
            final(self).spec_capacity() == old(self).spec_capacity(),
            old(self)@.len() < old(self).spec_capacity() ==> {
                &&& r is Ok
                &&& final(self)@ == old(self)@.push(event)
            },
            old(self)@.len() >= old(self).spec_capacity() ==> {
                &&& r == Result::<(), ZenithError>::Err(ZenithError::BufferFull)
                &&& final(self)@ == old(self)@
            },
    {
        match queue_push(&mut self.queue, event) {
            Ok(()) => Ok(()),
            Err(_) => Err(ZenithError::BufferFull),
        }
    }

    /// Dequeue the oldest event, if any: the element at the front of the
    /// view, with the rest sliding forward.
    pub fn pop(&mut self) -> (r: Option<ZenithEvent>)
        ensures
            final(self).spec_capacity() == old(self).spec_capacity(),
            old(self)@.len() == 0 ==> {
                &&& r is None
                &&& final(self)@ == old(self)@
            },
            old(self)@.len() > 0 ==> {
                &&& r == Some(old(self)@[0])
                &&& final(self)@ == old(self)@.skip(1)
            },
    {
        queue_pop(&mut self.queue)
    }

    /// Current occupancy.
    pub fn len(&self) -> (r: usize)
        ensures
            r == self@.len(),
    {
        queue_len(&self.queue)
    }

    /// Whether the ring holds nothing.
    pub fn is_empty(&self) -> (r: bool)
        ensures
            r == (self@.len() == 0),
    {
        queue_is_empty(&self.queue)
    }
}

/// Per-producer order is kept by a push: two events already queued in a
/// given order are still in that order, in the same relative positions,
/// after any further event is appended.
pub proof fn lemma_push_keeps_order(s: Seq<ZenithEvent>, e: ZenithEvent, i: int, j: int)
    requires
        0 <= i < j < s.len(),
    ensures
        s.push(e)[i] == s[i],
        s.push(e)[j] == s[j],
{
}

/// Per-producer order is kept by a pop: after the oldest event leaves, two
/// remaining events keep their relative order, each moving one slot
/// forward. Together with `lemma_push_keeps_order` and the `push`/`pop`
/// contracts, the consumer dequeues any two events of one producer in the
/// order that producer enqueued them.
pub proof fn lemma_pop_keeps_order(s: Seq<ZenithEvent>, i: int, j: int)
    requires
        1 <= i < j < s.len(),
    ensures
        s.skip(1)[i - 1] == s[i],
        s.skip(1)[j - 1] == s[j],
        i - 1 < j - 1,
{
}

} // verus!
