//! The mix from input channels to output channels.

use crate::frames::channel_views;
use crate::schedule::any_consumed;
use vstd::prelude::*;

verus! {

/// Every input channel has the length of every output channel, so that a
/// channel can be copied onto any other.
pub open spec fn lengths_match<T>(inputs: Seq<Seq<T>>, outputs: Seq<Seq<T>>) -> bool {
    forall|i: int, o: int|
        0 <= i < inputs.len() && 0 <= o < outputs.len() ==> #[trigger] inputs[i].len()
            == #[trigger] outputs[o].len()
}

/// Buffer for buffer, `a` and `b` have the same lengths.
pub open spec fn same_lengths<T>(a: Seq<Seq<T>>, b: Seq<Seq<T>>) -> bool {
    a.len() == b.len() && forall|c: int| 0 <= c < a.len() ==> #[trigger] a[c].len() == b[c].len()
}

/// What the loopback mix leaves in the outputs: every output channel a copy
/// of the last input channel, or the outputs untouched when there is no
/// input channel.
pub open spec fn loopback<T>(inputs: Seq<Seq<T>>, outputs: Seq<Seq<T>>) -> Seq<Seq<T>> {
    if inputs.len() == 0 {
        outputs
    } else {
        Seq::new(outputs.len(), |o: int| inputs.last())
    }
}

/// What the loopback mix produces: with some input channel, as many output
/// channels as before, each one the last input channel, sample for sample;
/// with no input channel, the outputs as they were.
pub proof fn lemma_loopback_copies_last<T>(inputs: Seq<Seq<T>>, outputs: Seq<Seq<T>>)
    ensures
        loopback(inputs, outputs).len() == outputs.len(),
        inputs.len() > 0 ==> forall|o: int|
            0 <= o < outputs.len() ==> #[trigger] loopback(inputs, outputs)[o] == inputs[inputs.len()
                - 1],
        inputs.len() == 0 ==> loopback(inputs, outputs) == outputs,
{
}

/// The mix copies rather than accumulates: mixing its own result again
/// changes nothing, and that result can be mixed again.
pub proof fn lemma_loopback_idempotent<T>(inputs: Seq<Seq<T>>, outputs: Seq<Seq<T>>)
    requires
        lengths_match(inputs, outputs),
    ensures
        lengths_match(inputs, loopback(inputs, outputs)),
        loopback(inputs, loopback(inputs, outputs)) == loopback(inputs, outputs),
{
    let once = loopback(inputs, outputs);
    if inputs.len() > 0 {
        assert forall|i: int, o: int|
            0 <= i < inputs.len() && 0 <= o < once.len() implies #[trigger] inputs[i].len()
                == #[trigger] once[o].len() by {
            assert(inputs[i].len() == outputs[o].len());
            assert(inputs[inputs.len() - 1].len() == outputs[o].len());
        }
        assert(loopback(inputs, once) =~= once);
    }
}

/// With some input channel, what the outputs held before the mix makes no
/// difference to what they hold after it.
pub proof fn lemma_loopback_ignores_outputs<T>(
    inputs: Seq<Seq<T>>,
    outputs: Seq<Seq<T>>,
    other: Seq<Seq<T>>,
)
    requires
        inputs.len() > 0,
        outputs.len() == other.len(),
    ensures
        loopback(inputs, outputs) == loopback(inputs, other),
{
    assert(loopback(inputs, outputs) =~= loopback(inputs, other));
}

/// Overwrites `dst` with the samples of `src`, which has the same length.
pub fn copy_channel<T: Copy>(dst: &mut Vec<T>, src: &Vec<T>)
    requires
        old(dst).len() == src.len(),
    ensures
        final(dst)@ == src@,
{
    let mut k: usize = 0;
    while k < src.len()
        invariant
            dst.len() == src.len(),
            k <= src.len(),
            forall|j: int| 0 <= j < k ==> dst@[j] == src@[j],
        decreases src.len() - k,
    {
        dst.set(k, src[k]);
        k = k + 1;
    }
    assert(dst@ =~= src@);
}

/// Given audio on all input channels, writes the resulting audio to the
/// output channels.  This is a loopback: each input channel in turn is copied
/// to every output channel, so the last one is what the outputs end up with.
pub fn big_mix<T: Copy>(inputs: &Vec<Vec<T>>, outputs: &mut Vec<Vec<T>>)
    requires
        lengths_match(channel_views(inputs@), channel_views(old(outputs)@)),
    ensures
        final(outputs).len() == old(outputs).len(),
        channel_views(final(outputs)@) == loopback(channel_views(inputs@), channel_views(old(outputs)@)),
        inputs.len() > 0 ==> forall|o: int|
            0 <= o < final(outputs).len() ==> #[trigger] final(outputs)@[o]@ == inputs@[inputs.len()
                - 1]@,
        inputs.len() == 0 ==> final(outputs)@ == old(outputs)@,
{
    let ghost start = channel_views(outputs@);
    if inputs.len() == 0 {
        return;
    }
    let mut i: usize = 0;
    while i < inputs.len()
        invariant
            i <= inputs.len(),
            outputs.len() == start.len(),
            lengths_match(channel_views(inputs@), start),
            same_lengths(channel_views(outputs@), start),
            i == 0 ==> channel_views(outputs@) == start,
            i > 0 ==> forall|o: int|
                0 <= o < outputs.len() ==> #[trigger] outputs@[o]@ == inputs@[i - 1]@,
        decreases inputs.len() - i,
    {
        let mut o: usize = 0;
        while o < outputs.len()
            invariant
                i < inputs.len(),
                o <= outputs.len(),
                outputs.len() == start.len(),
                lengths_match(channel_views(inputs@), start),
                same_lengths(channel_views(outputs@), start),
                forall|p: int| 0 <= p < o ==> #[trigger] outputs@[p]@ == inputs@[i as int]@,
                i > 0 ==> forall|p: int|
                    o <= p < outputs.len() ==> #[trigger] outputs@[p]@ == inputs@[i - 1]@,
                i == 0 ==> forall|p: int|
                    o <= p < outputs.len() ==> #[trigger] outputs@[p]@ == start[p],
            decreases outputs.len() - o,
        {
            let ghost before = outputs@;
            proof {
                assert(channel_views(inputs@)[i as int].len() == start[o as int].len());
                assert(channel_views(outputs@)[o as int].len() == start[o as int].len());
            }
            copy_channel(&mut outputs[o], &inputs[i]);
            proof {
                assert forall|p: int| 0 <= p < outputs.len() && p != o implies outputs@[p]
                    == before[p] by {}
                assert forall|c: int| 0 <= c < outputs.len() implies #[trigger] channel_views(
                    outputs@,
                )[c].len() == start[c].len() by {
                    assert(channel_views(before)[c].len() == start[c].len());
                }
            }
            o = o + 1;
        }
        i = i + 1;
    }
    proof {
        if inputs.len() > 0 {
            assert(channel_views(outputs@) =~= loopback(channel_views(inputs@), start));
        }
    }
}

/// The mix step of a pass of the processing loop: the loopback mix runs
/// exactly when some input stream produced a chunk in the pass; otherwise
/// the outputs are left untouched.  Returns whether it mixed, which is when
/// the output streams have to be written.
pub fn mix_if_consumed<T: Copy>(consumed: &[bool], inputs: &Vec<Vec<T>>, outputs: &mut Vec<Vec<T>>) -> (mixed: bool)
    requires
        (exists|i: int| 0 <= i < consumed.len() && #[trigger] consumed@[i]) ==> lengths_match(
            channel_views(inputs@),
            channel_views(old(outputs)@),
        ),
    ensures
        mixed == exists|i: int| 0 <= i < consumed.len() && #[trigger] consumed@[i],
        final(outputs).len() == old(outputs).len(),
        mixed ==> channel_views(final(outputs)@) == loopback(
            channel_views(inputs@),
            channel_views(old(outputs)@),
        ),
        !mixed ==> final(outputs)@ == old(outputs)@,
        mixed && inputs.len() > 0 ==> forall|o: int|
            0 <= o < final(outputs).len() ==> #[trigger] final(outputs)@[o]@ == inputs@[inputs.len()
                - 1]@,
{
    let mixed = any_consumed(consumed);
    if mixed {
        big_mix(inputs, outputs);
    }
    mixed
}

} // verus!
