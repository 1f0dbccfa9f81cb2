use audio_loop::config::{sample_queue, sample_ring_capacity, USER_BUFFER_SIZE};
use audio_loop::stream::{InputStreamCallback, OutputStreamCallback};
use audio_loop::transfer::SILENCE;

fn bits(samples: &[f32]) -> Vec<u32> {
    samples.iter().map(|s| s.to_bits()).collect()
}

#[test]
fn ring_capacity_holds_four_chunks() {
    assert_eq!(sample_ring_capacity(1), 1920);
    assert_eq!(sample_ring_capacity(2), 3840);
    assert_eq!(sample_ring_capacity(3), USER_BUFFER_SIZE * 3 * 4);
}

#[test]
fn samples_come_out_in_the_order_they_went_in() {
    let (tx, rx) = sample_queue(2);
    let mut input = InputStreamCallback::new(2, tx);
    let mut output = OutputStreamCallback::new(2, rx);
    let sent = bits(&[0.5, -0.5, 0.25, -0.25, 1.0, -1.0]);
    let report = input.process(&sent);
    assert_eq!(report.frames, 3);
    assert!(!report.xrun);
    let mut out = vec![7u32; 6];
    let report = output.process(&mut out);
    assert_eq!(report.frames, 3);
    assert!(!report.xrun);
    assert_eq!(out, sent);
}

#[test]
fn input_callback_counts_whole_frames_only() {
    let (tx, _rx) = sample_queue(2);
    let mut input = InputStreamCallback::new(2, tx);
    let report = input.process(&[1, 2, 3, 4, 5]);
    assert_eq!(report.frames, 2);
    assert!(!report.xrun);
}

#[test]
fn input_callback_reports_overrun_when_queue_is_full() {
    let (tx, rx) = sample_queue(1);
    let capacity = sample_ring_capacity(1);
    let mut input = InputStreamCallback::new(1, tx);
    let first: Vec<u32> = (0..capacity as u32).collect();
    let report = input.process(&first);
    assert!(!report.xrun);
    let report = input.process(&[9999, 10000]);
    assert!(report.xrun);
    assert_eq!(report.frames, 2);
    // The queue kept the samples that fitted, in order, and dropped the rest.
    let mut output = OutputStreamCallback::new(1, rx);
    let mut out = vec![0u32; capacity + 1];
    let report = output.process(&mut out);
    assert!(report.xrun);
    assert_eq!(&out[..capacity], &first[..]);
    assert_eq!(out[capacity], SILENCE);
}

#[test]
fn output_callback_fills_silence_on_underrun() {
    let (tx, rx) = sample_queue(2);
    let mut input = InputStreamCallback::new(2, tx);
    let mut output = OutputStreamCallback::new(2, rx);
    let sent = bits(&[0.1, 0.2]);
    input.process(&sent);
    let mut out = vec![123u32; 4];
    let report = output.process(&mut out);
    assert!(report.xrun);
    assert_eq!(report.frames, 2);
    assert_eq!(out, vec![sent[0], sent[1], SILENCE, SILENCE]);
    assert_eq!(f32::from_bits(SILENCE), 0.0);
}

#[test]
fn output_callback_on_empty_queue_is_all_silence() {
    let (_tx, rx) = sample_queue(1);
    let mut output = OutputStreamCallback::new(1, rx);
    let mut out = vec![5u32; 3];
    let report = output.process(&mut out);
    assert!(report.xrun);
    assert_eq!(report.frames, 3);
    assert_eq!(out, vec![SILENCE; 3]);
}

#[test]
fn output_callback_with_no_slots_is_no_underrun() {
    let (_tx, rx) = sample_queue(1);
    let mut output = OutputStreamCallback::new(1, rx);
    let mut out: Vec<u32> = Vec::new();
    let report = output.process(&mut out);
    assert!(!report.xrun);
    assert_eq!(report.frames, 0);
}
