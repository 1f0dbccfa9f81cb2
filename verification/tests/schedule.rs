use audio_loop::config::sample_queue;
use audio_loop::stream::{InputStream, OutputStream, StreamCommon};
use audio_loop::schedule::{
    any_consumed, keep_running, RateSchedule, LOOP_SLEEP_MILLIS, RATE_RECALC_INTERVAL_NANOS,
    RUN_DURATION_NANOS,
};

#[test]
fn loop_runs_for_one_hundred_seconds() {
    assert!(keep_running(0));
    assert!(keep_running(99_999_999_999));
    assert!(!keep_running(100_000_000_000));
    assert!(!keep_running(RUN_DURATION_NANOS + 1));
    assert_eq!(LOOP_SLEEP_MILLIS, 1);
}

#[test]
fn rates_are_measured_every_four_seconds() {
    let mut schedule = RateSchedule::new();
    assert!(!schedule.recalculation_due(0));
    assert!(!schedule.recalculation_due(3_999_999_999));
    assert!(schedule.recalculation_due(4_000_000_000));
    schedule.recalculated(4_000_000_123);
    assert!(!schedule.recalculation_due(7_000_000_000));
    assert!(!schedule.recalculation_due(8_000_000_122));
    assert!(schedule.recalculation_due(8_000_000_123));
    assert!(schedule.recalculation_due(4_000_000_123 + RATE_RECALC_INTERVAL_NANOS * 2));
}

#[test]
fn output_runs_when_any_input_consumed() {
    assert!(!any_consumed(&[]));
    assert!(!any_consumed(&[false, false]));
    assert!(any_consumed(&[false, true, false]));
    assert!(any_consumed(&[true]));
}

#[test]
fn due_measurement_reads_every_stream_once() {
    let (_tx1, rx1) = sample_queue(1);
    let (_tx2, rx2) = sample_queue(1);
    let (tx3, _rx3) = sample_queue(2);
    let mut inputs = vec![
        InputStream::new(StreamCommon::new("a".to_string(), 1, 48000), rx1, 0),
        InputStream::new(StreamCommon::new("b".to_string(), 1, 44100), rx2, 1),
    ];
    let mut outputs =
        vec![OutputStream::new(StreamCommon::new("c".to_string(), 2, 48000), tx3, 0)];
    let schedule = RateSchedule::new();
    assert!(schedule
        .measure_if_due(1_000, &mut inputs, &[10, 20], &mut outputs, &[30])
        .is_none());
    assert_eq!(inputs[0].last_frames, 0);
    let (input_deltas, output_deltas) = schedule
        .measure_if_due(4_000_000_000, &mut inputs, &[10, 20], &mut outputs, &[30])
        .unwrap();
    assert_eq!(input_deltas, vec![10, 20]);
    assert_eq!(output_deltas, vec![30]);
    assert_eq!(inputs[1].last_frames, 20);
    assert_eq!(outputs[0].last_frames, 30);
    let (input_deltas, _) = schedule
        .measure_if_due(5_000_000_000, &mut inputs, &[15, 25], &mut outputs, &[30])
        .unwrap();
    assert_eq!(input_deltas, vec![5, 5]);
}
