//! Fixed parameters of the audio loop and the sizes derived from them.

use crate::queue::{
    free_slots, queue_capacity, received_samples, receiver_queue, sender_queue, sent_samples, SampleReceiver,
    SampleRing, SampleSender,
};
use vstd::prelude::*;

verus! {

/// The rate at which the processing loop runs, in frames per second.
pub const NOMINAL_SAMPLE_RATE: u32 = 48000;

/// The fixed buffer size asked of the device callbacks, in frames.
pub const CPAL_BUFFER_SIZE: usize = 128;

/// The number of frames in one processing chunk.
pub const USER_BUFFER_SIZE: usize = 480;

/// The capacity of a stream's error queue.
pub const ERROR_BUFFER_SIZE: usize = 10;

/// The number of channels opened on an input device.
pub const INPUT_CHANNELS: u16 = 1;

/// The number of channels opened on an output device.
pub const OUTPUT_CHANNELS: u16 = 2;

/// How many processing chunks a stream's sample queue can hold.
pub const QUEUE_CHUNKS: usize = 4;

/// The capacity of the sample queue of a stream with `num_channels` channels:
/// room for four processing chunks.
pub open spec fn sample_queue_len(num_channels: nat) -> nat {
    (USER_BUFFER_SIZE * num_channels * QUEUE_CHUNKS) as nat
}

/// A stream's sample queue holds four chunks of 480 frames of every
/// channel: 1920 samples per channel.
pub proof fn lemma_queue_len_is_four_chunks(num_channels: nat)
    ensures
        sample_queue_len(num_channels) == 1920 * num_channels,
        sample_queue_len(num_channels) == 4 * (480 * num_channels),
{
}

/// The capacity of the sample queue of a stream with `num_channels` channels.
pub fn sample_ring_capacity(num_channels: usize) -> (capacity: usize)
    requires
        sample_queue_len(num_channels as nat) <= usize::MAX,
    ensures
        capacity == sample_queue_len(num_channels as nat),
        capacity == 1920 * num_channels,
{
    (USER_BUFFER_SIZE * num_channels) * QUEUE_CHUNKS
}

/// Creates the sample queue of a stream with `num_channels` channels and
/// splits it into its two halves, neither of which has moved a sample yet.
pub fn sample_queue(num_channels: usize) -> (halves: (SampleSender, SampleReceiver))
    requires
        num_channels > 0,
        sample_queue_len(num_channels as nat) <= usize::MAX,
    ensures
        queue_capacity(halves.0) == sample_queue_len(num_channels as nat),
        free_slots(halves.0) == sample_queue_len(num_channels as nat),
        sender_queue(halves.0) == receiver_queue(halves.1),
        sent_samples(halves.0) == Seq::<u32>::empty(),
        received_samples(halves.1) == Seq::<u32>::empty(),
{
    let capacity = sample_ring_capacity(num_channels);
    assert(capacity > 0) by (nonlinear_arith)
        requires
            capacity == USER_BUFFER_SIZE * num_channels * QUEUE_CHUNKS,
            num_channels > 0,
    ;
    SampleRing::with_capacity(capacity).split()
}

/// Whether a device is one that the loop opens: it must support the
/// direction and its name must be one of `targets`.
pub fn is_target_device(supports_direction: bool, name: &String, targets: &Vec<String>) -> (selected:
    bool)
    ensures
        selected == (supports_direction && exists|i: int|
            0 <= i < targets.len() && #[trigger] targets@[i]@ == name@),
{
    if !supports_direction {
        return false;
    }
    let mut i: usize = 0;
    while i < targets.len()
        invariant
            supports_direction,
            i <= targets.len(),
            forall|j: int| 0 <= j < i ==> #[trigger] targets@[j]@ != name@,
        decreases targets.len() - i,
    {
        if targets[i].eq(name) {
            assert(targets@[i as int]@ == name@);
            return true;
        }
        i = i + 1;
    }
    false
}

/// Hands out consecutive ranges of the shared channel buffers: each stream
/// gets as many buffers as it has channels, right after those of the
/// streams before it.
pub struct ChannelLayout {
    next_start: usize,
}

impl ChannelLayout {
    /// The index of the first buffer that is not handed out yet.
    pub closed spec fn next(self) -> nat {
        self.next_start as nat
    }

    /// A layout that has handed out nothing.
    pub fn new() -> (layout: ChannelLayout)
        ensures
            layout.next() == 0,
    {
        ChannelLayout { next_start: 0 }
    }

    /// The number of buffers handed out so far.
    pub fn total_channels(&self) -> (n: usize)
        ensures
            n == self.next(),
    {
        self.next_start
    }

    /// Hands out the next `channels` buffers and returns the index of the
    /// first of them.
    pub fn allocate(&mut self, channels: usize) -> (start: usize)
        requires
            old(self).next() + channels <= usize::MAX,
        ensures
            start == old(self).next(),
            final(self).next() == old(self).next() + channels,
    {
        let start = self.next_start;
        self.next_start = self.next_start + channels;
        start
    }
}

} // verus!
