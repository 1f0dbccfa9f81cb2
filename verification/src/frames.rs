//! Interleaved and per-channel layouts of multichannel audio.
//!
//! A device stream carries frames one after another; a frame holds one
//! sample per channel.  The resamplers work on one buffer per channel.

use vstd::arithmetic::div_mod::lemma_fundamental_div_mod;
use vstd::arithmetic::div_mod::lemma_fundamental_div_mod_converse;
use vstd::prelude::*;

verus! {

/// The per-channel views of a vector of channel buffers.
pub open spec fn channel_views<T>(buffers: Seq<Vec<T>>) -> Seq<Seq<T>> {
    Seq::new(buffers.len(), |c: int| buffers[c]@)
}

/// The per-channel views hold one sequence per buffer, the samples of that
/// buffer.
pub proof fn lemma_channel_views<T>(buffers: Seq<Vec<T>>, c: int)
    requires
        0 <= c < buffers.len(),
    ensures
        channel_views(buffers).len() == buffers.len(),
        channel_views(buffers)[c] == buffers[c]@,
{
}

/// The first `frames` frames of the interleaved stream `samples` with
/// `channels` channels, one sequence per channel: channel `c` holds the
/// sample at position `i * channels + c` for frame `i`.
pub open spec fn deinterleaved<T>(samples: Seq<T>, channels: nat, frames: nat) -> Seq<Seq<T>> {
    Seq::new(channels, |c: int| Seq::new(frames, |i: int| samples[i * channels + c]))
}

/// The first `frames` samples of every channel buffer, interleaved: frame
/// after frame, and inside a frame channel after channel.
pub open spec fn interleaved<T>(buffers: Seq<Seq<T>>, frames: nat) -> Seq<T> {
    Seq::new(
        frames * buffers.len(),
        |k: int| buffers[k % (buffers.len() as int)][k / (buffers.len() as int)],
    )
}

/// Every channel buffer holds at least `frames` samples.
pub open spec fn all_hold_frames<T>(buffers: Seq<Seq<T>>, frames: nat) -> bool {
    forall|c: int| 0 <= c < buffers.len() ==> #[trigger] buffers[c].len() >= frames
}

/// Frame `i`, channel `c` sits at position `i * channels + c` of the
/// interleaved stream, inside its first `frames * channels` positions, and
/// the position gives back both.
pub proof fn lemma_frame_position(i: int, c: int, channels: int, frames: int)
    requires
        0 <= i < frames,
        0 <= c < channels,
    ensures
        0 <= i * channels + c < frames * channels,
        (i * channels + c) / channels == i,
        (i * channels + c) % channels == c,
{
    assert(0 <= i * channels + c < frames * channels) by (nonlinear_arith)
        requires
            0 <= i < frames,
            0 <= c < channels,
    ;
    lemma_fundamental_div_mod_converse(i * channels + c, channels, i, c);
}

/// A position inside the first `frames * channels` samples of an interleaved
/// stream names a frame below `frames` and a channel below `channels`.
pub proof fn lemma_position_frame(k: int, channels: int, frames: int)
    requires
        channels > 0,
        0 <= k < frames * channels,
    ensures
        k == (k / channels) * channels + k % channels,
        0 <= k % channels < channels,
        0 <= k / channels < frames,
{
    lemma_fundamental_div_mod(k, channels);
    let q = k / channels;
    let r = k % channels;
    assert(0 <= r < channels);
    assert(k == q * channels + r) by (nonlinear_arith)
        requires
            k == channels * q + r,
    ;
    assert(0 <= q < frames) by (nonlinear_arith)
        requires
            k == q * channels + r,
            0 <= r < channels,
            0 <= k < frames * channels,
            channels > 0,
    ;
}

/// Where each sample of an interleaving comes from: the stream holds
/// `frames` frames of one sample per buffer, and frame `i`, channel `c` is
/// sample `i` of buffer `c`, at position `i * channels + c`.
pub proof fn lemma_interleaved_position<T>(buffers: Seq<Seq<T>>, frames: nat, i: int, c: int)
    requires
        0 <= i < frames,
        0 <= c < buffers.len(),
    ensures
        interleaved(buffers, frames).len() == frames * buffers.len(),
        interleaved(buffers, frames)[i * buffers.len() + c] == buffers[c][i],
{
    lemma_frame_position(i, c, buffers.len() as int, frames as int);
}

/// Where each sample of a per-channel split comes from: there are
/// `channels` buffers of `frames` samples, and sample `i` of buffer `c` is
/// the sample at position `i * channels + c` of the interleaved stream.
pub proof fn lemma_deinterleaved_position<T>(samples: Seq<T>, channels: nat, frames: nat, c: int, i: int)
    requires
        0 <= c < channels,
        0 <= i < frames,
    ensures
        deinterleaved(samples, channels, frames).len() == channels,
        deinterleaved(samples, channels, frames)[c].len() == frames,
        deinterleaved(samples, channels, frames)[c][i] == samples[i * channels + c],
{
}

/// Interleaving the per-channel split of an interleaved stream gives the
/// stream back.
pub proof fn lemma_interleave_deinterleave<T>(samples: Seq<T>, channels: nat, frames: nat)
    requires
        channels > 0,
        samples.len() == frames * channels,
    ensures
        interleaved(deinterleaved(samples, channels, frames), frames) == samples,
{
    let split = deinterleaved(samples, channels, frames);
    let joined = interleaved(split, frames);
    assert forall|k: int| 0 <= k < samples.len() implies joined[k] == samples[k] by {
        lemma_position_frame(k, channels as int, frames as int);
    }
    assert(joined =~= samples);
}

/// Splitting the interleaving of channel buffers gives back the first
/// `frames` samples of every buffer.
pub proof fn lemma_deinterleave_interleave<T>(buffers: Seq<Seq<T>>, frames: nat)
    requires
        buffers.len() > 0,
        all_hold_frames(buffers, frames),
    ensures
        deinterleaved(interleaved(buffers, frames), buffers.len(), frames) == Seq::new(
            buffers.len(),
            |c: int| buffers[c].take(frames as int),
        ),
{
    let channels = buffers.len();
    let split = deinterleaved(interleaved(buffers, frames), channels, frames);
    let expected = Seq::new(channels, |c: int| buffers[c].take(frames as int));
    assert forall|c: int| 0 <= c < channels implies split[c] =~= expected[c] by {
        assert forall|i: int| 0 <= i < frames implies split[c][i] == expected[c][i] by {
            lemma_frame_position(i, c, channels as int, frames as int);
        }
    }
    assert(split =~= expected);
}

/// Interleaves the first `frames` samples of each channel buffer into one
/// stream.
pub fn interleave_frames<T: Copy>(buffers: &Vec<Vec<T>>, frames: usize) -> (samples: Vec<T>)
    requires
        all_hold_frames(channel_views(buffers@), frames as nat),
        frames * buffers.len() <= usize::MAX,
    ensures
        samples@ == interleaved(channel_views(buffers@), frames as nat),
        samples.len() == frames * buffers.len(),
        forall|i: int, c: int|
            0 <= i < frames && 0 <= c < buffers.len() ==> #[trigger] samples@[i * buffers.len() + c]
                == buffers@[c]@[i],
{
    let channels = buffers.len();
    let ghost views = channel_views(buffers@);
    let mut samples: Vec<T> = Vec::new();
    let mut i: usize = 0;
    while i < frames
        invariant
            views == channel_views(buffers@),
            channels == buffers.len(),
            all_hold_frames(views, frames as nat),
            frames * channels <= usize::MAX,
            i <= frames,
            samples.len() == i * channels,
            forall|k: int|
                0 <= k < samples.len() ==> samples@[k] == views[k % (channels as int)][k / (
                channels as int)],
        decreases frames - i,
    {
        let mut c: usize = 0;
        while c < channels
            invariant
                views == channel_views(buffers@),
                channels == buffers.len(),
                all_hold_frames(views, frames as nat),
                i < frames,
                c <= channels,
                samples.len() == i * channels + c,
                forall|k: int|
                    0 <= k < samples.len() ==> samples@[k] == views[k % (channels as int)][k / (
                    channels as int)],
            decreases channels - c,
        {
            proof {
                lemma_frame_position(i as int, c as int, channels as int, frames as int);
                assert(views[c as int].len() >= frames);
            }
            let sample = buffers[c][i];
            samples.push(sample);
            c = c + 1;
        }
        proof {
            assert(i * channels + channels == (i + 1) * channels) by (nonlinear_arith);
        }
        i = i + 1;
    }
    assert(samples@ =~= interleaved(views, frames as nat));
    proof {
        assert forall|i: int, c: int|
            0 <= i < frames && 0 <= c < buffers.len() implies #[trigger] samples@[i * buffers.len()
                + c] == buffers@[c]@[i] by {
            lemma_interleaved_position(views, frames as nat, i, c);
        }
    }
    samples
}

} // verus!
