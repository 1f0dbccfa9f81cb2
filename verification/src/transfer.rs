//! Moving samples between the sample queues and sample buffers.

use crate::frames::{
    all_hold_frames, channel_views, deinterleaved, interleaved, lemma_frame_position,
    lemma_position_frame,
};
use crate::queue::{
    free_slots, queue_capacity, queued_sample, ready_samples, received_samples, receiver_queue,
    sender_queue, sent_samples, SampleReceiver, SampleSender,
};
use vstd::prelude::*;

verus! {

/// The bit pattern of the `f32` sample `0.0`, written where a queue ran dry.
pub const SILENCE: u32 = 0;

/// The samples of `samples` whose flag in `keep` is set, in order.
pub open spec fn selected<T>(samples: Seq<T>, keep: Seq<bool>) -> Seq<T>
    decreases samples.len(),
{
    if samples.len() == 0 || keep.len() == 0 {
        Seq::empty()
    } else {
        let rest = selected(samples.drop_last(), keep.drop_last());
        if keep.last() {
            rest.push(samples.last())
        } else {
            rest
        }
    }
}

/// Every flag of `keep` is set.
pub open spec fn all_set(keep: Seq<bool>) -> bool {
    forall|i: int| 0 <= i < keep.len() ==> #[trigger] keep[i]
}

/// `after` is the receive history `before` followed by one chunk of `frames`
/// frames of `channels` interleaved samples, and the channel buffers went
/// from `old_buf` to `new_buf` by taking that chunk, split per channel, in
/// place of their first `frames` samples.
pub open spec fn pulled_chunk(
    before: Seq<u32>,
    after: Seq<u32>,
    channels: nat,
    frames: nat,
    old_buf: Seq<Seq<u32>>,
    new_buf: Seq<Seq<u32>>,
) -> bool {
    let chunk = after.skip(before.len() as int);
    &&& after.len() == before.len() + frames * channels
    &&& after.take(before.len() as int) == before
    &&& old_buf.len() == channels
    &&& new_buf.len() == channels
    &&& forall|c: int|
        0 <= c < channels ==> {
            &&& #[trigger] new_buf[c].len() == old_buf[c].len()
            &&& new_buf[c].take(frames as int) == deinterleaved(chunk, channels, frames)[c]
            &&& new_buf[c].skip(frames as int) == old_buf[c].skip(frames as int)
        }
}

/// A chunk taken off a queue into channel buffers interleaves back into
/// exactly the samples that were taken, in the order they were taken.
pub proof fn lemma_pulled_chunk_interleaves_back(
    before: Seq<u32>,
    after: Seq<u32>,
    channels: nat,
    frames: nat,
    old_buf: Seq<Seq<u32>>,
    new_buf: Seq<Seq<u32>>,
)
    requires
        channels > 0,
        all_hold_frames(old_buf, frames),
        pulled_chunk(before, after, channels, frames, old_buf, new_buf),
    ensures
        all_hold_frames(new_buf, frames),
        interleaved(new_buf, frames) == after.skip(before.len() as int),
{
    let chunk = after.skip(before.len() as int);
    assert forall|c: int| 0 <= c < new_buf.len() implies #[trigger] new_buf[c].len() >= frames by {
        assert(old_buf[c].len() >= frames);
    }
    let joined = interleaved(new_buf, frames);
    assert forall|k: int| 0 <= k < chunk.len() implies joined[k] == chunk[k] by {
        lemma_position_frame(k, channels as int, frames as int);
        let c = k % (channels as int);
        let i = k / (channels as int);
        assert(new_buf[c].len() >= frames);
        assert(new_buf[c].take(frames as int)[i] == new_buf[c][i]);
        assert(deinterleaved(chunk, channels, frames)[c][i] == chunk[i * channels + c]);
    }
    assert(joined =~= chunk);
}

/// Appending one sample and its flag extends the selection by that sample
/// when the flag is set.
pub proof fn lemma_selected_push<T>(samples: Seq<T>, keep: Seq<bool>, x: T, b: bool)
    requires
        samples.len() == keep.len(),
    ensures
        selected(samples.push(x), keep.push(b)) == if b {
            selected(samples, keep).push(x)
        } else {
            selected(samples, keep)
        },
{
    assert(samples.push(x).drop_last() =~= samples);
    assert(keep.push(b).drop_last() =~= keep);
}

/// Selecting from nothing gives nothing, and a selection never holds more
/// samples than it selects from.
pub proof fn lemma_selected_bounds<T>(samples: Seq<T>, keep: Seq<bool>)
    requires
        samples.len() == keep.len(),
    ensures
        samples.len() == 0 ==> selected(samples, keep) == Seq::<T>::empty(),
        selected(samples, keep).len() <= samples.len(),
    decreases samples.len(),
{
    if samples.len() > 0 {
        lemma_selected_bounds(samples.drop_last(), keep.drop_last());
    }
}

/// Appending a flag keeps every flag set exactly when the new one is set too.
pub proof fn lemma_all_set_push(keep: Seq<bool>, b: bool)
    ensures
        all_set(keep.push(b)) == (all_set(keep) && b),
{
    if all_set(keep.push(b)) {
        assert forall|i: int| 0 <= i < keep.len() implies keep[i] by {
            assert(keep.push(b)[i]);
        }
        assert(keep.push(b)[keep.len() as int]);
    }
}

/// With every flag set, the selection is the whole sequence.
pub proof fn lemma_selected_all<T>(samples: Seq<T>, keep: Seq<bool>)
    requires
        samples.len() == keep.len(),
        all_set(keep),
    ensures
        selected(samples, keep) == samples,
    decreases samples.len(),
{
    if samples.len() > 0 {
        assert(all_set(keep.drop_last()));
        lemma_selected_all(samples.drop_last(), keep.drop_last());
        assert(samples.drop_last().push(samples.last()) =~= samples);
    }
}

/// From position `from` on, `history` holds the samples that queue `queue`
/// holds at the same positions.
pub open spec fn matches_queue(history: Seq<u32>, queue: int, from: int) -> bool {
    forall|j: int| from <= j < history.len() ==> #[trigger] history[j] == queued_sample(queue, j)
}

/// The send history went from `before` to `after` by appending the samples
/// of `offered` that `keep` marks, in order, and a sample was left out only
/// when the samples sent before it filled the queue's `capacity`.
pub open spec fn offered_to_queue(
    before: Seq<u32>,
    after: Seq<u32>,
    capacity: nat,
    offered: Seq<u32>,
    keep: Seq<bool>,
) -> bool {
    &&& keep.len() == offered.len()
    &&& after == before + selected(offered, keep)
    &&& forall|i: int|
        0 <= i < keep.len() && !keep[i] ==> before.len() + selected(
            offered.take(i),
            keep.take(i),
        ).len() >= capacity
}

/// The receive history went from `before` to `after` by appending the
/// samples of `out` that `keep` marks, in order; every other slot of `out`
/// holds `SILENCE`, and a slot got silence only when the samples taken before
/// it used up the `ready` samples the consumer was sure to find.
pub open spec fn taken_from_queue(
    before: Seq<u32>,
    after: Seq<u32>,
    ready: nat,
    out: Seq<u32>,
    keep: Seq<bool>,
) -> bool {
    &&& keep.len() == out.len()
    &&& after == before + selected(out, keep)
    &&& forall|i: int|
        0 <= i < keep.len() && !keep[i] ==> out[i] == SILENCE && selected(
            out.take(i),
            keep.take(i),
        ).len() >= ready
}

/// What a receiver takes from a queue is what a sender put into it: from the
/// position where the receiver's history left off, its new samples are the
/// sender's samples at the same positions.
pub proof fn lemma_received_is_sent(
    queue: int,
    sent_before: Seq<u32>,
    sent_after: Seq<u32>,
    received_before: Seq<u32>,
    received_after: Seq<u32>,
)
    requires
        matches_queue(sent_after, queue, sent_before.len() as int),
        matches_queue(received_after, queue, received_before.len() as int),
        received_before.len() == sent_before.len(),
        received_before.len() <= received_after.len() <= sent_after.len(),
    ensures
        received_after.skip(received_before.len() as int) == sent_after.subrange(
            sent_before.len() as int,
            received_after.len() as int,
        ),
{
    let got = received_after.skip(received_before.len() as int);
    let put = sent_after.subrange(sent_before.len() as int, received_after.len() as int);
    assert forall|k: int| 0 <= k < got.len() implies got[k] == put[k] by {
        let j = k + received_before.len();
        assert(received_after[j] == queued_sample(queue, j));
        assert(sent_after[j] == queued_sample(queue, j));
    }
    assert(got =~= put);
}

/// Capture and deinterleave are a round trip: a chunk that a consumer takes
/// from the queue position where a producer's samples went in, all of them
/// accepted, is those samples split per channel.
pub proof fn lemma_capture_deinterleave_round_trip(
    queue: int,
    samples: Seq<u32>,
    sent_before: Seq<u32>,
    sent_after: Seq<u32>,
    received_before: Seq<u32>,
    received_after: Seq<u32>,
    channels: nat,
    frames: nat,
    old_buf: Seq<Seq<u32>>,
    new_buf: Seq<Seq<u32>>,
)
    requires
        samples.len() == frames * channels,
        sent_after == sent_before + samples,
        matches_queue(sent_after, queue, sent_before.len() as int),
        received_before.len() == sent_before.len(),
        matches_queue(received_after, queue, received_before.len() as int),
        pulled_chunk(received_before, received_after, channels, frames, old_buf, new_buf),
    ensures
        forall|c: int|
            0 <= c < channels ==> #[trigger] new_buf[c].take(frames as int) == deinterleaved(
                samples,
                channels,
                frames,
            )[c],
{
    lemma_received_is_sent(queue, sent_before, sent_after, received_before, received_after);
    assert(sent_after.subrange(sent_before.len() as int, received_after.len() as int) =~= samples);
}

/// Extending a sequence leaves its prefixes as they were.
proof fn lemma_take_push<T>(s: Seq<T>, x: T, j: int)
    requires
        0 <= j <= s.len(),
    ensures
        s.push(x).take(j) == s.take(j),
{
    assert(s.push(x).take(j) =~= s.take(j));
}

/// Offering `sample` took the sender from `before` to `after`.  Kept, the
/// sample was appended as the queue's next sample; left out, the sender had
/// no free slot, and had already sent `capacity` samples.
pub open spec fn push_step(before: SampleSender, after: SampleSender, sample: u32, kept: bool) -> bool {
    &&& sender_queue(after) == sender_queue(before)
    &&& queue_capacity(after) == queue_capacity(before)
    &&& if kept {
        &&& sent_samples(after) == sent_samples(before).push(sample)
        &&& queued_sample(sender_queue(before), sent_samples(before).len() as int) == sample
        &&& free_slots(after) + 1 >= free_slots(before)
    } else {
        &&& free_slots(before) == 0
        &&& sent_samples(after) == sent_samples(before)
        &&& sent_samples(before).len() >= queue_capacity(before)
    }
}

/// Step `i` of `pushed_each`.
pub open spec fn push_step_at(states: Seq<SampleSender>, offered: Seq<u32>, keep: Seq<bool>, i: int) -> bool {
    push_step(states[i], states[i + 1], offered[i], keep[i])
}

/// `states` are the sender's states before and after offering each sample
/// of `offered` in turn, and `keep` says which samples were kept.
pub open spec fn pushed_each(states: Seq<SampleSender>, offered: Seq<u32>, keep: Seq<bool>) -> bool {
    &&& states.len() == offered.len() + 1
    &&& keep.len() == offered.len()
    &&& forall|i: int| 0 <= i < offered.len() ==> #[trigger] push_step_at(states, offered, keep, i)
}

/// Taking a sample for slot value `slot` took the receiver from `before` to
/// `after`.  Got, the slot holds the queue's next sample; not got, the
/// receiver could count on no sample at all, and the slot holds `SILENCE`.
pub open spec fn pop_step(before: SampleReceiver, after: SampleReceiver, slot: u32, got: bool) -> bool {
    &&& receiver_queue(after) == receiver_queue(before)
    &&& if got {
        &&& received_samples(after) == received_samples(before).push(slot)
        &&& slot == queued_sample(receiver_queue(before), received_samples(before).len() as int)
        &&& ready_samples(after) + 1 >= ready_samples(before)
    } else {
        &&& ready_samples(before) == 0
        &&& received_samples(after) == received_samples(before)
        &&& slot == SILENCE
    }
}

/// Step `i` of `popped_each`.
pub open spec fn pop_step_at(states: Seq<SampleReceiver>, out: Seq<u32>, keep: Seq<bool>, i: int) -> bool {
    pop_step(states[i], states[i + 1], out[i], keep[i])
}

/// `states` are the receiver's states before and after filling each slot of
/// `out` in turn, and `keep` says which slots got a sample from the queue.
pub open spec fn popped_each(states: Seq<SampleReceiver>, out: Seq<u32>, keep: Seq<bool>) -> bool {
    &&& states.len() == out.len() + 1
    &&& keep.len() == out.len()
    &&& forall|i: int| 0 <= i < out.len() ==> #[trigger] pop_step_at(states, out, keep, i)
}

/// Offers every sample of `samples` to the queue, in order, dropping those
/// that do not fit.  Returns whether every sample was accepted.
pub fn push_samples(tx: &mut SampleSender, samples: &[u32]) -> (all_accepted: bool)
    ensures
        exists|states: Seq<SampleSender>, keep: Seq<bool>|
            #![trigger pushed_each(states, samples@, keep)]
            pushed_each(states, samples@, keep) && states[0] == *old(tx) && states.last()
                == *final(tx) && offered_to_queue(
                sent_samples(*old(tx)),
                sent_samples(*final(tx)),
                queue_capacity(*old(tx)),
                samples@,
                keep,
            ) && (all_accepted <==> all_set(keep)),
        all_accepted ==> sent_samples(*final(tx)) == sent_samples(*old(tx)) + samples@,
        free_slots(*old(tx)) >= samples.len() ==> all_accepted,
        all_accepted ==> free_slots(*final(tx)) + samples.len() >= free_slots(*old(tx)),
        queue_capacity(*final(tx)) == queue_capacity(*old(tx)),
        sender_queue(*final(tx)) == sender_queue(*old(tx)),
        matches_queue(
            sent_samples(*final(tx)),
            sender_queue(*old(tx)),
            sent_samples(*old(tx)).len() as int,
        ),
        !all_accepted ==> sent_samples(*final(tx)).len() >= queue_capacity(*final(tx)),
{
    let ghost start = sent_samples(*tx);
    let ghost start_tx = *tx;
    let ghost queue = sender_queue(*tx);
    let ghost capacity = queue_capacity(*tx);
    let ghost mut keep: Seq<bool> = Seq::empty();
    let ghost mut states: Seq<SampleSender> = seq![*tx];
    let mut all_accepted = true;
    let mut i: usize = 0;
    while i < samples.len()
        invariant
            i <= samples.len(),
            keep.len() == i,
            states.len() == i + 1,
            states[0] == start_tx,
            states.last() == *tx,
            pushed_each(states, samples@.take(i as int), keep),
            sent_samples(*tx) == start + selected(samples@.take(i as int), keep),
            all_accepted <==> all_set(keep),
            all_accepted ==> free_slots(*tx) + i >= free_slots(start_tx),
            free_slots(start_tx) >= samples.len() ==> all_accepted,
            queue_capacity(*tx) == capacity,
            sender_queue(*tx) == queue,
            matches_queue(sent_samples(*tx), queue, start.len() as int),
            forall|j: int|
                0 <= j < i && !keep[j] ==> start.len() + selected(
                    samples@.take(j),
                    keep.take(j),
                ).len() >= capacity,
            !all_accepted ==> sent_samples(*tx).len() >= capacity,
        decreases samples.len() - i,
    {
        let ghost before = sent_samples(*tx);
        let ghost before_tx = *tx;
        let ghost old_keep = keep;
        let ghost old_states = states;
        let accepted = tx.try_push(samples[i]).is_ok();
        proof {
            lemma_selected_push(samples@.take(i as int), keep, samples@[i as int], accepted);
            assert(samples@.take(i as int).push(samples@[i as int]) =~= samples@.take(i + 1));
            lemma_all_set_push(keep, accepted);
            keep = keep.push(accepted);
            states = states.push(*tx);
            assert(push_step(before_tx, *tx, samples@[i as int], accepted));
            assert forall|j: int| 0 <= j < i + 1 implies #[trigger] push_step_at(
                states,
                samples@.take(i + 1),
                keep,
                j,
            ) by {
                if j < i {
                    assert(push_step_at(old_states, samples@.take(i as int), old_keep, j));
                    assert(states[j] == old_states[j]);
                    assert(states[j + 1] == old_states[j + 1]);
                    assert(samples@.take(i + 1)[j] == samples@.take(i as int)[j]);
                } else {
                    assert(states[j] == before_tx);
                    assert(samples@.take(i + 1)[j] == samples@[i as int]);
                }
            }
            assert forall|j: int|
                0 <= j < i + 1 && !keep[j] implies start.len() + selected(
                    samples@.take(j),
                    keep.take(j),
                ).len() >= capacity by {
                lemma_take_push(old_keep, accepted, j);
                if j == i {
                    assert(old_keep.take(j) =~= old_keep);
                }
            }
            assert forall|j: int|
                start.len() <= j < sent_samples(*tx).len() implies #[trigger] sent_samples(
                    *tx,
                )[j] == queued_sample(queue, j) by {
                if j < before.len() {
                    assert(sent_samples(*tx)[j] == before[j]);
                }
            }
        }
        if !accepted {
            all_accepted = false;
            assert(!keep[i as int]);
        }
        i = i + 1;
    }
    assert(samples@.take(i as int) =~= samples@);
    proof {
        if all_accepted {
            lemma_selected_all(samples@, keep);
        }
    }
    all_accepted
}

/// Fills every slot of `out` with the next sample of the queue, or with
/// `SILENCE` where the queue is empty.  Returns whether some slot got
/// silence.
pub fn fill_from_queue(rx: &mut SampleReceiver, out: &mut Vec<u32>) -> (underrun: bool)
    ensures
        final(out).len() == old(out).len(),
        exists|states: Seq<SampleReceiver>, keep: Seq<bool>|
            #![trigger popped_each(states, final(out)@, keep)]
            popped_each(states, final(out)@, keep) && states[0] == *old(rx) && states.last()
                == *final(rx) && taken_from_queue(
                received_samples(*old(rx)),
                received_samples(*final(rx)),
                ready_samples(*old(rx)),
                final(out)@,
                keep,
            ) && (underrun <==> !all_set(keep)),
        receiver_queue(*final(rx)) == receiver_queue(*old(rx)),
        matches_queue(
            received_samples(*final(rx)),
            receiver_queue(*old(rx)),
            received_samples(*old(rx)).len() as int,
        ),
        ready_samples(*old(rx)) >= old(out).len() ==> !underrun,
        !underrun ==> received_samples(*final(rx)) == received_samples(*old(rx)) + final(out)@,
{
    let ghost start = received_samples(*rx);
    let ghost start_rx = *rx;
    let ghost start_ready = ready_samples(*rx);
    let ghost queue = receiver_queue(*rx);
    let ghost mut keep: Seq<bool> = Seq::empty();
    let ghost mut states: Seq<SampleReceiver> = seq![*rx];
    let mut underrun = false;
    let mut i: usize = 0;
    while i < out.len()
        invariant
            i <= out.len(),
            out.len() == old(out).len(),
            keep.len() == i,
            states.len() == i + 1,
            states[0] == start_rx,
            states.last() == *rx,
            popped_each(states, out@.take(i as int), keep),
            received_samples(*rx).len() <= start.len() + i,
            ready_samples(*rx) + (received_samples(*rx).len() - start.len()) >= start_ready,
            received_samples(*rx) == start + selected(out@.take(i as int), keep),
            receiver_queue(*rx) == queue,
            matches_queue(received_samples(*rx), queue, start.len() as int),
            forall|j: int|
                0 <= j < i && !keep[j] ==> out@[j] == SILENCE && selected(
                    out@.take(j),
                    keep.take(j),
                ).len() >= start_ready,
            underrun <==> !all_set(keep),
            start_ready >= out.len() ==> !underrun,
        decreases out.len() - i,
    {
        let ghost before = out@;
        let ghost before_rx = received_samples(*rx);
        let ghost before_state = *rx;
        let ghost old_keep = keep;
        let ghost old_states = states;
        let popped = rx.try_pop();
        match popped {
            Some(x) => {
                out.set(i, x);
            },
            None => {
                out.set(i, SILENCE);
                underrun = true;
            },
        }
        proof {
            assert(out@.take(i as int) =~= before.take(i as int));
            lemma_selected_push(out@.take(i as int), keep, out@[i as int], popped is Some);
            assert(out@.take(i as int).push(out@[i as int]) =~= out@.take(i + 1));
            lemma_all_set_push(keep, popped is Some);
            keep = keep.push(popped is Some);
            states = states.push(*rx);
            if popped is None {
                assert(!keep[i as int]);
            }
            assert(pop_step(before_state, *rx, out@[i as int], popped is Some));
            assert forall|j: int| 0 <= j < i + 1 implies #[trigger] pop_step_at(
                states,
                out@.take(i + 1),
                keep,
                j,
            ) by {
                if j < i {
                    assert(pop_step_at(old_states, before.take(i as int), old_keep, j));
                    assert(states[j] == old_states[j]);
                    assert(states[j + 1] == old_states[j + 1]);
                    assert(out@.take(i + 1)[j] == before.take(i as int)[j]);
                } else {
                    assert(states[j] == before_state);
                    assert(out@.take(i + 1)[j] == out@[i as int]);
                }
            }
            assert forall|j: int|
                0 <= j < i + 1 && !keep[j] implies out@[j] == SILENCE && selected(
                    out@.take(j),
                    keep.take(j),
                ).len() >= start_ready by {
                lemma_take_push(old_keep, popped is Some, j);
                assert(out@.take(j) =~= before.take(j));
                if j == i {
                    assert(old_keep.take(j) =~= old_keep);
                    assert(before_rx == start + selected(out@.take(j), old_keep));
                }
            }
            assert forall|j: int|
                start.len() <= j < received_samples(*rx).len() implies #[trigger] received_samples(
                    *rx,
                )[j] == queued_sample(queue, j) by {
                if j < before_rx.len() {
                    assert(received_samples(*rx)[j] == before_rx[j]);
                }
            }
        }
        i = i + 1;
    }
    assert(out@.take(i as int) =~= out@);
    proof {
        if !underrun {
            lemma_selected_all(out@, keep);
        }
    }
    underrun
}

/// Takes `frames_needed` frames of `num_channels` interleaved samples off the
/// queue, the oldest first, and writes sample `i` of channel `c` to
/// `output[c][i]`.  The rest of every channel buffer is left as it was.
pub fn deinterleave_from_ring_buf(
    rx: &mut SampleReceiver,
    num_channels: usize,
    frames_needed: usize,
    output: &mut Vec<Vec<u32>>,
)
    requires
        old(output).len() == num_channels,
        all_hold_frames(channel_views(old(output)@), frames_needed as nat),
        frames_needed * num_channels <= ready_samples(*old(rx)),
    ensures
        pulled_chunk(
            received_samples(*old(rx)),
            received_samples(*final(rx)),
            num_channels as nat,
            frames_needed as nat,
            channel_views(old(output)@),
            channel_views(final(output)@),
        ),
        receiver_queue(*final(rx)) == receiver_queue(*old(rx)),
        matches_queue(
            received_samples(*final(rx)),
            receiver_queue(*old(rx)),
            received_samples(*old(rx)).len() as int,
        ),
{
    let ghost queue = receiver_queue(*rx);
    let ghost start = received_samples(*rx);
    let ghost start_ready = ready_samples(*rx);
    let ghost original = output@;
    let mut i: usize = 0;
    while i < frames_needed
        invariant
            i <= frames_needed,
            output.len() == num_channels,
            original.len() == num_channels,
            all_hold_frames(channel_views(original), frames_needed as nat),
            frames_needed * num_channels <= start_ready,
            forall|c: int| 0 <= c < num_channels ==> #[trigger] output@[c].len() == original[c].len(),
            received_samples(*rx).len() == start.len() + i * num_channels,
            received_samples(*rx).take(start.len() as int) == start,
            receiver_queue(*rx) == queue,
            matches_queue(received_samples(*rx), queue, start.len() as int),
            ready_samples(*rx) + i * num_channels >= start_ready,
            forall|c: int, j: int|
                0 <= c < num_channels && 0 <= j < original[c].len() ==> #[trigger] output@[c]@[j]
                    == if j < i {
                    received_samples(*rx)[start.len() + j * num_channels + c]
                } else {
                    original[c]@[j]
                },
        decreases frames_needed - i,
    {
        let mut c: usize = 0;
        while c < num_channels
            invariant
                i < frames_needed,
                c <= num_channels,
                output.len() == num_channels,
                original.len() == num_channels,
                all_hold_frames(channel_views(original), frames_needed as nat),
                frames_needed * num_channels <= start_ready,
                forall|c: int| 0 <= c < num_channels ==> #[trigger] output@[c].len() == original[c].len(),
                received_samples(*rx).len() == start.len() + i * num_channels + c,
                received_samples(*rx).take(start.len() as int) == start,
                receiver_queue(*rx) == queue,
                matches_queue(received_samples(*rx), queue, start.len() as int),
                ready_samples(*rx) + i * num_channels + c >= start_ready,
                forall|d: int, j: int|
                    0 <= d < num_channels && 0 <= j < original[d].len() ==> #[trigger] output@[d]@[j]
                        == if j < i || (j == i && d < c) {
                        received_samples(*rx)[start.len() + j * num_channels + d]
                    } else {
                        original[d]@[j]
                    },
            decreases num_channels - c,
        {
            proof {
                lemma_frame_position(i as int, c as int, num_channels as int, frames_needed as int);
                assert(channel_views(original)[c as int].len() >= frames_needed);
            }
            let ghost before_rx = received_samples(*rx);
            let ghost before_out = output@;
            let popped = rx.try_pop();
            let sample = match popped {
                Some(x) => x,
                None => {
                    proof {
                        assert(false);
                    }
                    SILENCE
                },
            };
            output[c].set(i, sample);
            proof {
                assert(output@[c as int]@ == before_out[c as int]@.update(i as int, sample));
                assert(forall|d: int| 0 <= d < num_channels && d != c ==> output@[d] == before_out[d]);
                let now = received_samples(*rx);
                assert(now == before_rx.push(sample));
                assert(now.take(start.len() as int) =~= before_rx.take(start.len() as int));
                assert forall|j: int| start.len() <= j < now.len() implies #[trigger] now[j]
                    == queued_sample(queue, j) by {
                    if j < before_rx.len() {
                        assert(now[j] == before_rx[j]);
                    }
                }
                assert forall|d: int, j: int|
                    0 <= d < num_channels && 0 <= j < original[d].len() implies #[trigger] output@[d]@[j]
                        == if j < i || (j == i && d < c + 1) {
                        now[start.len() + j * num_channels + d]
                    } else {
                        original[d]@[j]
                    } by {
                    assert(before_out[d].len() == original[d].len());
                    if d == c && j == i {
                        assert(output@[d]@ == before_out[d]@.update(i as int, sample));
                        assert(output@[d]@[j] == sample);
                        assert(now[before_rx.len() as int] == sample);
                    } else {
                        if d == c {
                            assert(output@[d]@ == before_out[d]@.update(i as int, sample));
                        } else {
                            assert(output@[d] == before_out[d]);
                        }
                        assert(output@[d]@[j] == before_out[d]@[j]);
                        if j < i || (j == i && d < c) {
                            if j < i {
                                lemma_frame_position(j, d, num_channels as int, i as int);
                            }
                            assert(start.len() + j * num_channels + d < before_rx.len());
                            assert(before_out[d]@[j] == before_rx[start.len() + j * num_channels + d]);
                        }
                    }
                }
                assert forall|d: int| 0 <= d < num_channels implies #[trigger] output@[d].len()
                    == original[d].len() by {
                    assert(before_out[d].len() == original[d].len());
                    if d != c {
                        assert(output@[d] == before_out[d]);
                    } else {
                        assert(output@[d]@ == before_out[d]@.update(i as int, sample));
                    }
                }
            }
            c = c + 1;
        }
        proof {
            assert(i * num_channels + num_channels == (i + 1) * num_channels) by (nonlinear_arith);
        }
        i = i + 1;
    }
    proof {
        let after = received_samples(*rx);
        let chunk = after.skip(start.len() as int);
        let views = channel_views(output@);
        let old_views = channel_views(original);
        assert forall|c: int| 0 <= c < num_channels implies {
            &&& #[trigger] views[c].len() == old_views[c].len()
            &&& views[c].take(frames_needed as int) == deinterleaved(chunk, num_channels as nat, frames_needed as nat)[c]
            &&& views[c].skip(frames_needed as int) == old_views[c].skip(frames_needed as int)
        } by {
            assert(old_views[c].len() >= frames_needed);
            assert(old_views[c] == original[c]@);
            assert(views[c] == output@[c]@);
            assert(output@[c].len() == original[c].len());
            assert(views[c].len() >= frames_needed);
            assert forall|j: int| 0 <= j < frames_needed implies views[c].take(frames_needed as int)[j]
                == deinterleaved(chunk, num_channels as nat, frames_needed as nat)[c][j] by {
                lemma_frame_position(j, c, num_channels as int, frames_needed as int);
                assert(output@[c]@[j] == after[start.len() + j * num_channels + c]);
                assert(chunk[j * num_channels + c] == after[start.len() + j * num_channels + c]);
                assert(views[c].take(frames_needed as int)[j] == views[c][j]);
                assert(deinterleaved(chunk, num_channels as nat, frames_needed as nat)[c][j]
                    == chunk[j * num_channels + c]);
            }
            assert(views[c].take(frames_needed as int) =~= deinterleaved(chunk, num_channels as nat, frames_needed as nat)[c]);
            assert forall|j: int| 0 <= j < views[c].len() - frames_needed implies views[c].skip(frames_needed as int)[j]
                == old_views[c].skip(frames_needed as int)[j] by {
                assert(output@[c]@[j + frames_needed] == original[c]@[j + frames_needed]);
            }
            assert(views[c].skip(frames_needed as int) =~= old_views[c].skip(frames_needed as int));
        }
    }
}

} // verus!
