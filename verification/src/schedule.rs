//! The decisions of the processing loop: how long it runs, when it measures
//! the streams' sample rates, and when it produces output.  Clock readings
//! are nanoseconds since the loop started; the loop itself, the clock and the
//! sleeping are the caller's.

use crate::stream::{
    frame_delta, input_measured, output_measured, take_input_frame_deltas,
    take_output_frame_deltas, InputStream, OutputStream,
};
use vstd::prelude::*;

verus! {

/// How long the processing loop runs.
pub const RUN_DURATION_NANOS: u128 = 100_000_000_000;

/// How often the streams' sample rates are measured.
pub const RATE_RECALC_INTERVAL_NANOS: u128 = 4_000_000_000;

/// How long the loop sleeps between two passes.
pub const LOOP_SLEEP_MILLIS: u64 = 1;

/// Whether the loop starts another pass at `elapsed` nanoseconds.
pub open spec fn running_at(elapsed: nat) -> bool {
    elapsed < RUN_DURATION_NANOS
}

/// Whether a rate measurement is due at `now`, the last one having been at
/// `last`.
pub open spec fn rates_due(last: nat, now: nat) -> bool {
    now >= last + RATE_RECALC_INTERVAL_NANOS
}

/// The loop runs for exactly 100 seconds: it starts a pass at every time
/// below 100 s and at none from 100 s on.
pub proof fn lemma_runs_one_hundred_seconds(elapsed: nat)
    ensures
        running_at(elapsed) == (elapsed < 100_000_000_000),
{
}

/// A rate measurement falls due exactly 4 seconds after the last one.
pub proof fn lemma_rates_due_after_four_seconds(last: nat, now: nat)
    ensures
        rates_due(last, now) == (now >= last + 4_000_000_000),
{
}

/// Whether the loop starts another pass, `elapsed_nanos` after it started.
pub fn keep_running(elapsed_nanos: u128) -> (running: bool)
    ensures
        running == running_at(elapsed_nanos as nat),
        running == (elapsed_nanos < 100_000_000_000),
{
    elapsed_nanos < RUN_DURATION_NANOS
}

/// Whether some input stream produced a chunk in this pass, so that the mix
/// and the outputs have to run.
pub fn any_consumed(consumed: &[bool]) -> (any: bool)
    ensures
        any == exists|i: int| 0 <= i < consumed.len() && #[trigger] consumed@[i],
{
    let mut i: usize = 0;
    while i < consumed.len()
        invariant
            i <= consumed.len(),
            forall|j: int| 0 <= j < i ==> !#[trigger] consumed@[j],
        decreases consumed.len() - i,
    {
        if consumed[i] {
            return true;
        }
        i = i + 1;
    }
    false
}

/// When the streams' sample rates were last measured.
pub struct RateSchedule {
    last_recalculated: u128,
}

impl RateSchedule {
    /// The time of the last measurement, in nanoseconds since the loop started.
    pub closed spec fn last(self) -> nat {
        self.last_recalculated as nat
    }

    /// The schedule at the start of the loop, which counts as a measurement.
    pub fn new() -> (schedule: RateSchedule)
        ensures
            schedule.last() == 0,
    {
        RateSchedule { last_recalculated: 0 }
    }

    /// Whether a measurement is due at `now`: one interval or more has passed
    /// since the last one.
    pub fn recalculation_due(&self, now: u128) -> (due: bool)
        requires
            now >= self.last(),
        ensures
            due == rates_due(self.last(), now as nat),
            due == (now >= self.last() + 4_000_000_000),
    {
        now - self.last_recalculated >= RATE_RECALC_INTERVAL_NANOS
    }

    /// The rate step of a pass at `now`: when a measurement is due, takes a
    /// new frame-counter reading of every input and every output stream,
    /// once each, and returns the frames each counted since its last
    /// reading; when none is due, changes nothing.  `input_totals[k]` and
    /// `output_totals[k]` are the counter readings of stream `k`.
    pub fn measure_if_due(
        &self,
        now: u128,
        inputs: &mut Vec<InputStream>,
        input_totals: &[u64],
        outputs: &mut Vec<OutputStream>,
        output_totals: &[u64],
    ) -> (deltas: Option<(Vec<u64>, Vec<u64>)>)
        requires
            now >= self.last(),
            input_totals.len() == old(inputs).len(),
            output_totals.len() == old(outputs).len(),
            forall|k: int|
                0 <= k < input_totals.len() ==> #[trigger] input_totals@[k] >= old(inputs)@[k].common().last_frames,
            forall|k: int|
                0 <= k < output_totals.len() ==> #[trigger] output_totals@[k] >= old(outputs)@[k].common().last_frames,
        ensures
            deltas is Some <==> rates_due(self.last(), now as nat),
            deltas is None ==> final(inputs)@ == old(inputs)@ && final(outputs)@ == old(outputs)@,
            final(inputs).len() == old(inputs).len(),
            final(outputs).len() == old(outputs).len(),
            deltas matches Some((input_deltas, output_deltas)) ==> {
                &&& input_deltas.len() == input_totals.len()
                &&& output_deltas.len() == output_totals.len()
                &&& forall|k: int|
                    0 <= k < input_totals.len() ==> #[trigger] input_deltas@[k] == frame_delta(
                        old(inputs)@[k].common().last_frames,
                        input_totals@[k],
                    ) && input_measured(old(inputs)@[k], final(inputs)@[k], input_totals@[k])
                &&& forall|k: int|
                    0 <= k < output_totals.len() ==> #[trigger] output_deltas@[k] == frame_delta(
                        old(outputs)@[k].common().last_frames,
                        output_totals@[k],
                    ) && output_measured(old(outputs)@[k], final(outputs)@[k], output_totals@[k])
            },
    {
        if self.recalculation_due(now) {
            let input_deltas = take_input_frame_deltas(inputs, input_totals);
            let output_deltas = take_output_frame_deltas(outputs, output_totals);
            Some((input_deltas, output_deltas))
        } else {
            None
        }
    }

    /// Records a measurement made at `now`.
    pub fn recalculated(&mut self, now: u128)
        requires
            now >= old(self).last(),
        ensures
            final(self).last() == now,
    {
        self.last_recalculated = now;
    }
}

/// After a measurement at `last`, the next one falls due exactly one interval
/// later: not before, and at any time from then on.
pub proof fn lemma_recalculation_spacing(last: nat, now: nat)
    requires
        now >= last,
    ensures
        now < last + RATE_RECALC_INTERVAL_NANOS ==> !rates_due(last, now),
        now >= last + RATE_RECALC_INTERVAL_NANOS ==> rates_due(last, now),
{
}

} // verus!
