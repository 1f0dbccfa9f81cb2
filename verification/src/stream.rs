//! Input and output streams: the state the processing loop keeps per device,
//! and the work the device callbacks do.

use crate::frames::{all_hold_frames, channel_views, interleave_frames, interleaved};
use crate::queue::{
    free_slots, queue_capacity, ready_samples, received_samples, receiver_queue, sender_queue,
    sent_samples, SampleReceiver, SampleSender,
};
use crate::transfer::{
    all_set, deinterleave_from_ring_buf, fill_from_queue, matches_queue, offered_to_queue,
    popped_each, pulled_chunk, push_samples, pushed_each, selected, taken_from_queue,
};
use vstd::prelude::*;

verus! {

/// What input and output streams have in common: the device, the stream's
/// format, the frame count at the last rate measurement, and whether the
/// device reported an error.
pub struct StreamCommon {
    pub device_name: String,
    pub num_channels: usize,
    pub sample_rate: usize,
    pub last_frames: u64,
    pub has_errored: bool,
}

/// The number of frames counted since the last measurement.
pub open spec fn frame_delta(last_frames: u64, total_frames: u64) -> int {
    total_frames - last_frames
}

/// The frames counted between two readings of a stream's frame counter are
/// the plain difference of the readings.
pub proof fn lemma_frame_delta_is_difference(last_frames: u64, total_frames: u64)
    requires
        last_frames <= total_frames,
    ensures
        frame_delta(last_frames, total_frames) == total_frames - last_frames,
        0 <= frame_delta(last_frames, total_frames) <= total_frames,
{
}

/// The deltas of two measurements in a row add up to the frames counted
/// since the first of them started.
pub proof fn lemma_frame_deltas_add_up(last_frames: u64, first_total: u64, second_total: u64)
    requires
        last_frames <= first_total <= second_total,
    ensures
        frame_delta(last_frames, first_total) + frame_delta(first_total, second_total)
            == frame_delta(last_frames, second_total),
        frame_delta(last_frames, first_total) + frame_delta(first_total, second_total)
            == second_total - last_frames,
{
}

impl StreamCommon {
    /// A stream that has counted no frames and has reported no error.
    pub fn new(device_name: String, num_channels: usize, sample_rate: usize) -> (common: StreamCommon)
        ensures
            common.device_name@ == device_name@,
            common.num_channels == num_channels,
            common.sample_rate == sample_rate,
            common.last_frames == 0,
            !common.has_errored,
    {
        StreamCommon { device_name, num_channels, sample_rate, last_frames: 0, has_errored: false }
    }

    /// Records that the device reported an error.
    pub fn mark_errored(&mut self)
        ensures
            final(self).has_errored,
            final(self).device_name == old(self).device_name,
            final(self).num_channels == old(self).num_channels,
            final(self).sample_rate == old(self).sample_rate,
            final(self).last_frames == old(self).last_frames,
    {
        self.has_errored = true;
    }

    /// Takes a new reading `total_frames` of the stream's frame counter:
    /// returns the frames counted since the last reading and remembers this
    /// one.
    pub fn take_frame_delta(&mut self, total_frames: u64) -> (delta: u64)
        requires
            total_frames >= old(self).last_frames,
        ensures
            delta == frame_delta(old(self).last_frames, total_frames),
            delta == total_frames - old(self).last_frames,
            final(self).last_frames == total_frames,
            final(self).device_name == old(self).device_name,
            final(self).num_channels == old(self).num_channels,
            final(self).sample_rate == old(self).sample_rate,
            final(self).has_errored == old(self).has_errored,
    {
        let delta = total_frames - self.last_frames;
        self.last_frames = total_frames;
        delta
    }
}

/// A call on an input stream that went from `before` to `after` kept an
/// error that the device had reported, and then took no sample from the
/// stream's queue.
pub open spec fn keeps_error_state(before: InputStream, after: InputStream) -> bool {
    before.common().has_errored ==> after.common().has_errored && after.receiver()
        == before.receiver()
}

/// Once its device has reported an error, an input stream stays errored and
/// takes no further sample, whatever calls follow: along any sequence of
/// states where each step keeps the error state, every later state is
/// errored and holds the receiver of the first.
pub proof fn lemma_errored_input_stays_idle(states: Seq<InputStream>)
    requires
        states.len() > 0,
        states[0].common().has_errored,
        forall|k: int| 0 <= k < states.len() - 1 ==> #[trigger] keeps_error_state(states[k], states[k + 1]),
    ensures
        forall|k: int|
            0 <= k < states.len() ==> #[trigger] states[k].common().has_errored && states[k].receiver()
                == states[0].receiver(),
    decreases states.len(),
{
    if states.len() > 1 {
        let shorter = states.drop_last();
        assert forall|k: int| 0 <= k < shorter.len() - 1 implies #[trigger] keeps_error_state(
            shorter[k],
            shorter[k + 1],
        ) by {
            assert(keeps_error_state(states[k], states[k + 1]));
        }
        lemma_errored_input_stays_idle(shorter);
        let last = states.len() - 1;
        let prev = last - 1;
        assert(shorter[prev] == states[prev]);
        assert(keeps_error_state(states[prev], states[prev + 1]));
        assert(prev + 1 == last);
        assert forall|k: int| 0 <= k < states.len() implies #[trigger] states[k].common().has_errored
            && states[k].receiver() == states[0].receiver() by {
            assert(shorter[0] == states[0]);
            if k < last {
                assert(shorter[k] == states[k]);
                assert(shorter[k].common().has_errored);
            } else {
                assert(shorter[prev].common().has_errored);
            }
        }
    }
}

/// An input stream as the processing loop sees it: its shared state, the
/// receiving half of the queue its device callback fills, and the first of
/// the shared input buffers that its channels are resampled into.
pub struct InputStream {
    stream_common: StreamCommon,
    sample_rx: SampleReceiver,
    input_buffer_index_start: usize,
}

impl InputStream {
    /// The stream's shared state.
    pub closed spec fn common(self) -> StreamCommon {
        self.stream_common
    }

    /// The receiving half of the stream's sample queue.
    pub closed spec fn receiver(self) -> SampleReceiver {
        self.sample_rx
    }

    /// The index of the first shared input buffer of the stream.
    pub closed spec fn buffer_start(self) -> nat {
        self.input_buffer_index_start as nat
    }

    /// An input stream over the given state and queue, whose channels start
    /// at shared buffer `input_buffer_index_start`.
    pub fn new(stream_common: StreamCommon, sample_rx: SampleReceiver, input_buffer_index_start: usize) -> (stream: InputStream)
        ensures
            stream.common() == stream_common,
            stream.receiver() == sample_rx,
            stream.buffer_start() == input_buffer_index_start,
    {
        InputStream { stream_common, sample_rx, input_buffer_index_start }
    }

    /// The index of the first shared input buffer of the stream.
    pub fn input_buffer_start(&self) -> (start: usize)
        ensures
            start == self.buffer_start(),
    {
        self.input_buffer_index_start
    }

    /// The range of shared input buffers that belongs to the stream.
    pub fn input_channels(&self) -> (range: (usize, usize))
        requires
            self.buffer_start() + self.common().num_channels <= usize::MAX,
        ensures
            range.0 == self.buffer_start(),
            range.1 == self.buffer_start() + self.common().num_channels,
    {
        (self.input_buffer_index_start, self.input_buffer_index_start
            + self.stream_common.num_channels)
    }

    /// Records that the device reported an error.
    pub fn mark_errored(&mut self)
        ensures
            final(self).common().has_errored,
            final(self).common().device_name == old(self).common().device_name,
            final(self).common().num_channels == old(self).common().num_channels,
            final(self).common().sample_rate == old(self).common().sample_rate,
            final(self).common().last_frames == old(self).common().last_frames,
            final(self).receiver() == old(self).receiver(),
            final(self).buffer_start() == old(self).buffer_start(),
            keeps_error_state(*old(self), *final(self)),
    {
        self.stream_common.has_errored = true;
    }

    /// Takes a new reading of the stream's frame counter; see
    /// `StreamCommon::take_frame_delta`.
    pub fn take_frame_delta(&mut self, total_frames: u64) -> (delta: u64)
        requires
            total_frames >= old(self).common().last_frames,
        ensures
            delta == frame_delta(old(self).common().last_frames, total_frames),
            delta == total_frames - old(self).common().last_frames,
            final(self).common().last_frames == total_frames,
            final(self).common().device_name == old(self).common().device_name,
            final(self).common().num_channels == old(self).common().num_channels,
            final(self).common().sample_rate == old(self).common().sample_rate,
            final(self).common().has_errored == old(self).common().has_errored,
            final(self).receiver() == old(self).receiver(),
            final(self).buffer_start() == old(self).buffer_start(),
            keeps_error_state(*old(self), *final(self)),
    {
        let delta = total_frames - self.stream_common.last_frames;
        self.stream_common.last_frames = total_frames;
        delta
    }

    /// Takes the next resampler chunk of `input_frames_needed` frames off the
    /// stream's queue, split per channel into `input_buffer`, if the queue
    /// holds a whole chunk and the device has not reported an error.
    /// Returns whether it did; when it did not, nothing changed.
    pub fn consume_from_ring_buffer(&mut self, input_frames_needed: usize, input_buffer: &mut Vec<Vec<u32>>) -> (consumed: bool)
        requires
            input_frames_needed * old(self).common().num_channels <= usize::MAX,
            old(input_buffer).len() == old(self).common().num_channels,
            all_hold_frames(channel_views(old(input_buffer)@), input_frames_needed as nat),
        ensures
            final(self).common() == old(self).common(),
            final(self).buffer_start() == old(self).buffer_start(),
            old(self).common().has_errored ==> !consumed,
            !old(self).common().has_errored && input_frames_needed * old(self).common().num_channels
                == 0 ==> consumed,
            !consumed ==> *final(self) == *old(self) && final(input_buffer)@ == old(input_buffer)@,
            keeps_error_state(*old(self), *final(self)),
            consumed ==> ready_samples(old(self).receiver()) >= input_frames_needed
                * old(self).common().num_channels,
            consumed ==> pulled_chunk(
                received_samples(old(self).receiver()),
                received_samples(final(self).receiver()),
                old(self).common().num_channels as nat,
                input_frames_needed as nat,
                channel_views(old(input_buffer)@),
                channel_views(final(input_buffer)@),
            ),
            receiver_queue(final(self).receiver()) == receiver_queue(old(self).receiver()),
            matches_queue(
                received_samples(final(self).receiver()),
                receiver_queue(old(self).receiver()),
                received_samples(old(self).receiver()).len() as int,
            ),
    {
        if self.stream_common.has_errored {
            return false;
        }
        let occupied = self.sample_rx.occupied_len();
        self.consume_observed_chunk(occupied, input_frames_needed, input_buffer)
    }

    /// The decision and the work of `consume_from_ring_buffer` once the queue
    /// was seen to hold `occupied` samples: the chunk of `input_frames_needed`
    /// frames is taken exactly when the device has not reported an error and
    /// `occupied` covers the chunk; otherwise nothing changes.
    pub fn consume_observed_chunk(
        &mut self,
        occupied: usize,
        input_frames_needed: usize,
        input_buffer: &mut Vec<Vec<u32>>,
    ) -> (consumed: bool)
        requires
            occupied <= ready_samples(old(self).receiver()),
            input_frames_needed * old(self).common().num_channels <= usize::MAX,
            old(input_buffer).len() == old(self).common().num_channels,
            all_hold_frames(channel_views(old(input_buffer)@), input_frames_needed as nat),
        ensures
            consumed == (!old(self).common().has_errored && occupied >= input_frames_needed
                * old(self).common().num_channels),
            final(self).common() == old(self).common(),
            final(self).buffer_start() == old(self).buffer_start(),
            !consumed ==> *final(self) == *old(self) && final(input_buffer)@ == old(input_buffer)@,
            keeps_error_state(*old(self), *final(self)),
            consumed ==> pulled_chunk(
                received_samples(old(self).receiver()),
                received_samples(final(self).receiver()),
                old(self).common().num_channels as nat,
                input_frames_needed as nat,
                channel_views(old(input_buffer)@),
                channel_views(final(input_buffer)@),
            ),
            receiver_queue(final(self).receiver()) == receiver_queue(old(self).receiver()),
            matches_queue(
                received_samples(final(self).receiver()),
                receiver_queue(old(self).receiver()),
                received_samples(old(self).receiver()).len() as int,
            ),
    {
        if self.stream_common.has_errored {
            return false;
        }
        let num_channels = self.stream_common.num_channels;
        if occupied >= input_frames_needed * num_channels {
            deinterleave_from_ring_buf(
                &mut self.sample_rx,
                num_channels,
                input_frames_needed,
                input_buffer,
            );
            true
        } else {
            false
        }
    }
}

impl std::ops::Deref for InputStream {
    type Target = StreamCommon;

    /// The stream's shared state.
    fn deref(&self) -> (common: &StreamCommon)
        ensures
            *common == self.common(),
    {
        &self.stream_common
    }
}

/// An output stream as the processing loop sees it: its shared state, the
/// sending half of the queue its device callback drains, and the first of
/// the shared output buffers that its channels are resampled from.
pub struct OutputStream {
    stream_common: StreamCommon,
    sample_tx: SampleSender,
    output_buffer_index_start: usize,
}

impl OutputStream {
    /// The stream's shared state.
    pub closed spec fn common(self) -> StreamCommon {
        self.stream_common
    }

    /// The sending half of the stream's sample queue.
    pub closed spec fn sender(self) -> SampleSender {
        self.sample_tx
    }

    /// The index of the first shared output buffer of the stream.
    pub closed spec fn buffer_start(self) -> nat {
        self.output_buffer_index_start as nat
    }

    /// An output stream over the given state and queue, whose channels start
    /// at shared buffer `output_buffer_index_start`.
    pub fn new(stream_common: StreamCommon, sample_tx: SampleSender, output_buffer_index_start: usize) -> (stream: OutputStream)
        ensures
            stream.common() == stream_common,
            stream.sender() == sample_tx,
            stream.buffer_start() == output_buffer_index_start,
    {
        OutputStream { stream_common, sample_tx, output_buffer_index_start }
    }

    /// The index of the first shared output buffer of the stream.
    pub fn output_buffer_start(&self) -> (start: usize)
        ensures
            start == self.buffer_start(),
    {
        self.output_buffer_index_start
    }

    /// The range of shared output buffers that belongs to the stream.
    pub fn output_channels(&self) -> (range: (usize, usize))
        requires
            self.buffer_start() + self.common().num_channels <= usize::MAX,
        ensures
            range.0 == self.buffer_start(),
            range.1 == self.buffer_start() + self.common().num_channels,
    {
        (self.output_buffer_index_start, self.output_buffer_index_start
            + self.stream_common.num_channels)
    }

    /// Records that the device reported an error.
    pub fn mark_errored(&mut self)
        ensures
            final(self).common().has_errored,
            final(self).common().device_name == old(self).common().device_name,
            final(self).common().num_channels == old(self).common().num_channels,
            final(self).common().sample_rate == old(self).common().sample_rate,
            final(self).common().last_frames == old(self).common().last_frames,
            final(self).sender() == old(self).sender(),
            final(self).buffer_start() == old(self).buffer_start(),
    {
        self.stream_common.has_errored = true;
    }

    /// Takes a new reading of the stream's frame counter; see
    /// `StreamCommon::take_frame_delta`.
    pub fn take_frame_delta(&mut self, total_frames: u64) -> (delta: u64)
        requires
            total_frames >= old(self).common().last_frames,
        ensures
            delta == frame_delta(old(self).common().last_frames, total_frames),
            delta == total_frames - old(self).common().last_frames,
            final(self).common().last_frames == total_frames,
            final(self).common().device_name == old(self).common().device_name,
            final(self).common().num_channels == old(self).common().num_channels,
            final(self).common().sample_rate == old(self).common().sample_rate,
            final(self).common().has_errored == old(self).common().has_errored,
            final(self).sender() == old(self).sender(),
            final(self).buffer_start() == old(self).buffer_start(),
    {
        let delta = total_frames - self.stream_common.last_frames;
        self.stream_common.last_frames = total_frames;
        delta
    }

    /// Interleaves the first `output_frames` frames of the resampled channel
    /// buffers into the stream's queue, frame after frame, dropping the
    /// samples that do not fit.  Returns whether every sample fitted.
    pub fn write_to_ring_buffer(&mut self, output_buffer: &Vec<Vec<u32>>, output_frames: usize) -> (all_accepted: bool)
        requires
            all_hold_frames(channel_views(output_buffer@), output_frames as nat),
            output_frames * output_buffer.len() <= usize::MAX,
        ensures
            final(self).common() == old(self).common(),
            final(self).buffer_start() == old(self).buffer_start(),
            exists|states: Seq<SampleSender>, keep: Seq<bool>|
                #![trigger pushed_each(states, interleaved(channel_views(output_buffer@), output_frames as nat), keep)]
                pushed_each(
                    states,
                    interleaved(channel_views(output_buffer@), output_frames as nat),
                    keep,
                ) && states[0] == old(self).sender() && states.last() == final(self).sender()
                    && offered_to_queue(
                    sent_samples(old(self).sender()),
                    sent_samples(final(self).sender()),
                    queue_capacity(old(self).sender()),
                    interleaved(channel_views(output_buffer@), output_frames as nat),
                    keep,
                ) && (all_accepted <==> all_set(keep)),
            all_accepted ==> sent_samples(final(self).sender()) == sent_samples(old(self).sender())
                + interleaved(channel_views(output_buffer@), output_frames as nat),
            free_slots(old(self).sender()) >= output_frames * output_buffer.len() ==> all_accepted,
            all_accepted ==> free_slots(final(self).sender()) + output_frames * output_buffer.len()
                >= free_slots(old(self).sender()),
            !all_accepted ==> sent_samples(final(self).sender()).len() >= queue_capacity(
                old(self).sender(),
            ),
            queue_capacity(final(self).sender()) == queue_capacity(old(self).sender()),
            sender_queue(final(self).sender()) == sender_queue(old(self).sender()),
            matches_queue(
                sent_samples(final(self).sender()),
                sender_queue(old(self).sender()),
                sent_samples(old(self).sender()).len() as int,
            ),
    {
        let samples = interleave_frames(output_buffer, output_frames);
        push_samples(&mut self.sample_tx, samples.as_slice())
    }
}

impl std::ops::Deref for OutputStream {
    type Target = StreamCommon;

    /// The stream's shared state.
    fn deref(&self) -> (common: &StreamCommon)
        ensures
            *common == self.common(),
    {
        &self.stream_common
    }
}

/// What a device callback did: the frames it counted, and whether samples
/// were lost (an input that found its queue full, or an output that found
/// its queue empty).
pub struct CallbackReport {
    pub frames: u64,
    pub xrun: bool,
}

/// The work of an input device's callback: it counts the frames it is given
/// and hands their samples to the stream's queue.
pub struct InputStreamCallback {
    num_channels: usize,
    sample_tx: SampleSender,
}

impl InputStreamCallback {
    /// The number of channels of the device's samples.
    pub closed spec fn channels(self) -> nat {
        self.num_channels as nat
    }

    /// The sending half of the stream's sample queue.
    pub closed spec fn sender(self) -> SampleSender {
        self.sample_tx
    }

    /// The callback of a device with `num_channels` channels feeding `sample_tx`.
    pub fn new(num_channels: usize, sample_tx: SampleSender) -> (callback: InputStreamCallback)
        ensures
            callback.channels() == num_channels,
            callback.sender() == sample_tx,
    {
        InputStreamCallback { num_channels, sample_tx }
    }

    /// Handles one buffer of interleaved samples from the device: counts its
    /// whole frames and offers every sample, in order, to the queue.
    pub fn process(&mut self, input: &[u32]) -> (report: CallbackReport)
        requires
            old(self).channels() > 0,
        ensures
            final(self).channels() == old(self).channels(),
            report.frames == (input.len() as nat) / old(self).channels(),
            exists|states: Seq<SampleSender>, keep: Seq<bool>|
                #![trigger pushed_each(states, input@, keep)]
                pushed_each(states, input@, keep) && states[0] == old(self).sender()
                    && states.last() == final(self).sender() && offered_to_queue(
                    sent_samples(old(self).sender()),
                    sent_samples(final(self).sender()),
                    queue_capacity(old(self).sender()),
                    input@,
                    keep,
                ) && (report.xrun <==> !all_set(keep)),
            !report.xrun ==> sent_samples(final(self).sender()) == sent_samples(old(self).sender())
                + input@,
            free_slots(old(self).sender()) >= input.len() ==> !report.xrun,
            !report.xrun ==> free_slots(final(self).sender()) + input.len() >= free_slots(
                old(self).sender(),
            ),
            report.xrun ==> sent_samples(final(self).sender()).len() >= queue_capacity(
                old(self).sender(),
            ),
            queue_capacity(final(self).sender()) == queue_capacity(old(self).sender()),
            sender_queue(final(self).sender()) == sender_queue(old(self).sender()),
            matches_queue(
                sent_samples(final(self).sender()),
                sender_queue(old(self).sender()),
                sent_samples(old(self).sender()).len() as int,
            ),
    {
        let frames = (input.len() / self.num_channels) as u64;
        let all_accepted = push_samples(&mut self.sample_tx, input);
        CallbackReport { frames, xrun: !all_accepted }
    }
}

/// The work of an output device's callback: it counts the frames it must
/// fill and takes their samples off the stream's queue.
pub struct OutputStreamCallback {
    num_channels: usize,
    sample_rx: SampleReceiver,
}

impl OutputStreamCallback {
    /// The number of channels of the device's samples.
    pub closed spec fn channels(self) -> nat {
        self.num_channels as nat
    }

    /// The receiving half of the stream's sample queue.
    pub closed spec fn receiver(self) -> SampleReceiver {
        self.sample_rx
    }

    /// The callback of a device with `num_channels` channels drained from `sample_rx`.
    pub fn new(num_channels: usize, sample_rx: SampleReceiver) -> (callback: OutputStreamCallback)
        ensures
            callback.channels() == num_channels,
            callback.receiver() == sample_rx,
    {
        OutputStreamCallback { num_channels, sample_rx }
    }

    /// Fills one buffer of interleaved samples for the device: counts its
    /// whole frames and takes every sample off the queue in order, writing
    /// `SILENCE` where the queue is empty.
    pub fn process(&mut self, output: &mut Vec<u32>) -> (report: CallbackReport)
        requires
            old(self).channels() > 0,
        ensures
            final(self).channels() == old(self).channels(),
            final(output).len() == old(output).len(),
            report.frames == (old(output).len() as nat) / old(self).channels(),
            exists|states: Seq<SampleReceiver>, keep: Seq<bool>|
                #![trigger popped_each(states, final(output)@, keep)]
                popped_each(states, final(output)@, keep) && states[0] == old(self).receiver()
                    && states.last() == final(self).receiver() && taken_from_queue(
                    received_samples(old(self).receiver()),
                    received_samples(final(self).receiver()),
                    ready_samples(old(self).receiver()),
                    final(output)@,
                    keep,
                ) && (report.xrun <==> !all_set(keep)),
            ready_samples(old(self).receiver()) >= old(output).len() ==> !report.xrun,
            !report.xrun ==> received_samples(final(self).receiver()) == received_samples(
                old(self).receiver(),
            ) + final(output)@,
            receiver_queue(final(self).receiver()) == receiver_queue(old(self).receiver()),
            matches_queue(
                received_samples(final(self).receiver()),
                receiver_queue(old(self).receiver()),
                received_samples(old(self).receiver()).len() as int,
            ),
    {
        let frames = (output.len() / self.num_channels) as u64;
        let underrun = fill_from_queue(&mut self.sample_rx, output);
        CallbackReport { frames, xrun: underrun }
    }
}

/// Input stream `after` is input stream `before` with a new frame-counter
/// reading `total` taken, and nothing else changed.
pub open spec fn input_measured(before: InputStream, after: InputStream, total: u64) -> bool {
    &&& after.common().last_frames == total
    &&& after.common().device_name == before.common().device_name
    &&& after.common().num_channels == before.common().num_channels
    &&& after.common().sample_rate == before.common().sample_rate
    &&& after.common().has_errored == before.common().has_errored
    &&& after.receiver() == before.receiver()
    &&& after.buffer_start() == before.buffer_start()
}

/// Output stream `after` is output stream `before` with a new frame-counter
/// reading `total` taken, and nothing else changed.
pub open spec fn output_measured(before: OutputStream, after: OutputStream, total: u64) -> bool {
    &&& after.common().last_frames == total
    &&& after.common().device_name == before.common().device_name
    &&& after.common().num_channels == before.common().num_channels
    &&& after.common().sample_rate == before.common().sample_rate
    &&& after.common().has_errored == before.common().has_errored
    &&& after.sender() == before.sender()
    &&& after.buffer_start() == before.buffer_start()
}

/// Takes a new frame-counter reading of every input stream, `totals[k]` for
/// stream `k`, once each, and returns the frames each counted since its last
/// reading.
pub fn take_input_frame_deltas(streams: &mut Vec<InputStream>, totals: &[u64]) -> (deltas: Vec<u64>)
    requires
        totals.len() == old(streams).len(),
        forall|k: int| 0 <= k < totals.len() ==> #[trigger] totals@[k] >= old(streams)@[k].common().last_frames,
    ensures
        final(streams).len() == old(streams).len(),
        deltas.len() == totals.len(),
        forall|k: int|
            0 <= k < totals.len() ==> #[trigger] deltas@[k] == frame_delta(
                old(streams)@[k].common().last_frames,
                totals@[k],
            ) && deltas@[k] == totals@[k] - old(streams)@[k].common().last_frames
                && input_measured(old(streams)@[k], final(streams)@[k], totals@[k]),
{
    let ghost start = streams@;
    let mut deltas: Vec<u64> = Vec::new();
    let mut k: usize = 0;
    while k < totals.len()
        invariant
            k <= totals.len(),
            totals.len() == start.len(),
            streams.len() == start.len(),
            deltas.len() == k,
            forall|j: int| 0 <= j < totals.len() ==> #[trigger] totals@[j] >= start[j].common().last_frames,
            forall|j: int|
                0 <= j < k ==> #[trigger] deltas@[j] == frame_delta(start[j].common().last_frames, totals@[j])
                    && input_measured(start[j], streams@[j], totals@[j]),
            forall|j: int| k <= j < streams.len() ==> #[trigger] streams@[j] == start[j],
        decreases totals.len() - k,
    {
        let ghost before = streams@;
        assert(totals@[k as int] >= start[k as int].common().last_frames);
        let delta = streams[k].take_frame_delta(totals[k]);
        deltas.push(delta);
        proof {
            assert forall|j: int| 0 <= j < streams.len() && j != k implies streams@[j] == before[j] by {}
        }
        k = k + 1;
    }
    deltas
}

/// Takes a new frame-counter reading of every output stream, `totals[k]` for
/// stream `k`, once each, and returns the frames each counted since its last
/// reading.
pub fn take_output_frame_deltas(streams: &mut Vec<OutputStream>, totals: &[u64]) -> (deltas: Vec<u64>)
    requires
        totals.len() == old(streams).len(),
        forall|k: int| 0 <= k < totals.len() ==> #[trigger] totals@[k] >= old(streams)@[k].common().last_frames,
    ensures
        final(streams).len() == old(streams).len(),
        deltas.len() == totals.len(),
        forall|k: int|
            0 <= k < totals.len() ==> #[trigger] deltas@[k] == frame_delta(
                old(streams)@[k].common().last_frames,
                totals@[k],
            ) && deltas@[k] == totals@[k] - old(streams)@[k].common().last_frames
                && output_measured(old(streams)@[k], final(streams)@[k], totals@[k]),
{
    let ghost start = streams@;
    let mut deltas: Vec<u64> = Vec::new();
    let mut k: usize = 0;
    while k < totals.len()
        invariant
            k <= totals.len(),
            totals.len() == start.len(),
            streams.len() == start.len(),
            deltas.len() == k,
            forall|j: int| 0 <= j < totals.len() ==> #[trigger] totals@[j] >= start[j].common().last_frames,
            forall|j: int|
                0 <= j < k ==> #[trigger] deltas@[j] == frame_delta(start[j].common().last_frames, totals@[j])
                    && output_measured(start[j], streams@[j], totals@[j]),
            forall|j: int| k <= j < streams.len() ==> #[trigger] streams@[j] == start[j],
        decreases totals.len() - k,
    {
        let ghost before = streams@;
        assert(totals@[k as int] >= start[k as int].common().last_frames);
        let delta = streams[k].take_frame_delta(totals[k]);
        deltas.push(delta);
        proof {
            assert forall|j: int| 0 <= j < streams.len() && j != k implies streams@[j] == before[j] by {}
        }
        k = k + 1;
    }
    deltas
}

} // verus!
