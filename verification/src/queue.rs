//! Single-producer single-consumer sample queues, backed by `ringbuf`'s heap
//! ring buffer.  The two halves of a queue usually live on different threads,
//! so the contracts speak of what each half has done (the samples it handed
//! over or took out), never of what the shared buffer holds at a given time.

use ringbuf::traits::{Consumer, Observer, Producer, Split};
use vstd::prelude::*;

verus! {

/// A heap ring buffer of sample words that has not been split yet.
#[verifier::external_body]
pub struct SampleRing {
    ring: ringbuf::HeapRb<u32>,
}

/// The producing half of a sample queue.
#[verifier::external_body]
pub struct SampleSender {
    prod: ringbuf::HeapProd<u32>,
}

/// The consuming half of a sample queue.
#[verifier::external_body]
pub struct SampleReceiver {
    cons: ringbuf::HeapCons<u32>,
}

/// The number of slots of a ring.
pub uninterp spec fn ring_capacity(ring: SampleRing) -> nat;

/// The number of slots of the queue that `sender` feeds.
pub uninterp spec fn queue_capacity(sender: SampleSender) -> nat;

/// The queue that `sender` feeds.
pub uninterp spec fn sender_queue(sender: SampleSender) -> int;

/// The queue that `receiver` drains.
pub uninterp spec fn receiver_queue(receiver: SampleReceiver) -> int;

/// The sample pushed into queue `queue` as its `index`-th, counting from 0.
/// The queue is first in, first out, so it is also the `index`-th sample
/// popped from it.
pub uninterp spec fn queued_sample(queue: int, index: int) -> u32;

/// Every sample that `sender` has handed to its queue so far, oldest first.
pub uninterp spec fn sent_samples(sender: SampleSender) -> Seq<u32>;

/// Every sample that `receiver` has taken out of its queue so far, oldest first.
pub uninterp spec fn received_samples(receiver: SampleReceiver) -> Seq<u32>;

/// A number of samples that `receiver` is certain to find in its queue.
/// Only the consumer removes samples, so a count it has observed stays
/// available to it until it pops.
pub uninterp spec fn ready_samples(receiver: SampleReceiver) -> nat;

/// A number of free slots that `sender` is certain to find in its queue.
/// Only the producer fills slots, so free room it could count on stays
/// available to it until it pushes.
pub uninterp spec fn free_slots(sender: SampleSender) -> nat;

impl SampleRing {
    /// Calls `ringbuf::HeapRb::new`, which allocates an empty ring of
    /// `capacity` slots and panics on a zero capacity.
    #[verifier::external_body]
    pub(crate) fn with_capacity(capacity: usize) -> (ring: SampleRing)
        requires
            capacity > 0,
        ensures
            ring_capacity(ring) == capacity,
    {
        SampleRing { ring: ringbuf::HeapRb::new(capacity) }
    }

    /// Calls `Split::split` on the ring: it returns the caching producer and
    /// consumer of the same buffer.  Neither half has moved a sample yet, so
    /// every slot of the ring is free.
    #[verifier::external_body]
    pub(crate) fn split(self) -> (halves: (SampleSender, SampleReceiver))
        ensures
            queue_capacity(halves.0) == ring_capacity(self),
            free_slots(halves.0) == ring_capacity(self),
            sender_queue(halves.0) == receiver_queue(halves.1),
            sent_samples(halves.0) == Seq::<u32>::empty(),
            received_samples(halves.1) == Seq::<u32>::empty(),
    {
        let (prod, cons) = self.ring.split();
        (SampleSender { prod }, SampleReceiver { cons })
    }
}

impl SampleSender {
    /// Calls `Producer::try_push`: the sample is appended to the queue, as
    /// its next sample in first-in first-out order, or, when the queue is
    /// full, handed back unchanged in `Err`.  The caching producer refreshes
    /// its view of the consumer when its cache reads full, so a push succeeds
    /// whenever a slot is free; a full queue holds `capacity` samples, all
    /// sent through this producer.  How much room the consumer thread frees
    /// meanwhile is not stated.
    #[verifier::external_body]
    pub(crate) fn try_push(&mut self, sample: u32) -> (r: Result<(), u32>)
        ensures
            queue_capacity(*final(self)) == queue_capacity(*old(self)),
            sender_queue(*final(self)) == sender_queue(*old(self)),
            free_slots(*old(self)) > 0 ==> r is Ok,
            r is Ok ==> free_slots(*final(self)) + 1 >= free_slots(*old(self)),
            r is Err ==> sent_samples(*old(self)).len() >= queue_capacity(*old(self)),
            r is Ok ==> sent_samples(*final(self)) == sent_samples(*old(self)).push(sample)
                && queued_sample(sender_queue(*old(self)), sent_samples(*old(self)).len() as int)
                == sample,
            r matches Err(back) ==> back == sample && sent_samples(*final(self)) == sent_samples(
                *old(self),
            ),
    {
        self.prod.try_push(sample)
    }
}

impl SampleReceiver {
    /// Calls `Observer::occupied_len` on the consumer: the number of samples
    /// stored when it looked.  The producer may add more at any time, so the
    /// result is only a lower bound of what this consumer can pop.
    #[verifier::external_body]
    pub(crate) fn occupied_len(&self) -> (n: usize)
        ensures
            n <= ready_samples(*self),
    {
        self.cons.occupied_len()
    }

    /// Calls `Consumer::try_pop`: removes and returns the oldest sample, or
    /// `None` when the queue is empty.  The queue is first in, first out, so
    /// the sample is the one pushed at the position this consumer has reached.
    #[verifier::external_body]
    pub(crate) fn try_pop(&mut self) -> (r: Option<u32>)
        ensures
            receiver_queue(*final(self)) == receiver_queue(*old(self)),
            r matches Some(x) ==> x == queued_sample(
                receiver_queue(*old(self)),
                received_samples(*old(self)).len() as int,
            ),
            ready_samples(*old(self)) > 0 ==> r is Some,
            r is None ==> received_samples(*final(self)) == received_samples(*old(self)),
            r matches Some(x) ==> received_samples(*final(self)) == received_samples(
                *old(self),
            ).push(x) && ready_samples(*final(self)) + 1 >= ready_samples(*old(self)),
    {
        self.cons.try_pop()
    }
}

} // verus!
