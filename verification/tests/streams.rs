use audio_loop::config::{
    is_target_device, sample_queue, ChannelLayout, INPUT_CHANNELS, OUTPUT_CHANNELS,
};
use audio_loop::stream::{
    InputStream, InputStreamCallback, OutputStream, OutputStreamCallback, StreamCommon,
};

fn common(name: &str, channels: usize) -> StreamCommon {
    StreamCommon::new(name.to_string(), channels, 44100)
}

#[test]
fn new_stream_is_fresh() {
    let c = common("mic", 1);
    assert_eq!(c.device_name, "mic");
    assert_eq!(c.num_channels, 1);
    assert_eq!(c.sample_rate, 44100);
    assert_eq!(c.last_frames, 0);
    assert!(!c.has_errored);
}

#[test]
fn frame_deltas_add_up() {
    let mut c = common("mic", 1);
    assert_eq!(c.take_frame_delta(1000), 1000);
    assert_eq!(c.last_frames, 1000);
    assert_eq!(c.take_frame_delta(4800), 3800);
    assert_eq!(c.take_frame_delta(4800), 0);
    assert_eq!(c.last_frames, 4800);
}

#[test]
fn mark_errored_sets_flag_only() {
    let mut c = common("mic", 2);
    c.take_frame_delta(10);
    c.mark_errored();
    assert!(c.has_errored);
    assert_eq!(c.last_frames, 10);
    assert_eq!(c.num_channels, 2);
}

#[test]
fn layout_hands_out_consecutive_ranges() {
    let mut layout = ChannelLayout::new();
    assert_eq!(layout.total_channels(), 0);
    let a = layout.allocate(INPUT_CHANNELS as usize);
    let b = layout.allocate(2);
    let c = layout.allocate(OUTPUT_CHANNELS as usize);
    assert_eq!((a, b, c), (0, 1, 3));
    assert_eq!(layout.total_channels(), 5);
}

#[test]
fn target_device_selection() {
    let targets = vec!["Blue Snowball".to_string(), "Mac mini Speakers".to_string()];
    assert!(is_target_device(true, &"Blue Snowball".to_string(), &targets));
    assert!(!is_target_device(false, &"Blue Snowball".to_string(), &targets));
    assert!(!is_target_device(true, &"Blue".to_string(), &targets));
    assert!(!is_target_device(true, &"x".to_string(), &Vec::new()));
}

#[test]
fn consume_splits_a_chunk_per_channel() {
    let (tx, rx) = sample_queue(2);
    let mut cb = InputStreamCallback::new(2, tx);
    cb.process(&[1, 2, 3, 4, 5, 6, 7, 8]);
    let mut stream = InputStream::new(common("mic", 2), rx, 3);
    assert_eq!(stream.input_channels(), (3, 5));
    let mut buffer = vec![vec![0u32; 4], vec![0u32; 4]];
    assert!(stream.consume_from_ring_buffer(3, &mut buffer));
    assert_eq!(buffer, vec![vec![1, 3, 5, 0], vec![2, 4, 6, 0]]);
    // One frame (two samples) is left: not enough for another chunk of 3.
    assert!(!stream.consume_from_ring_buffer(3, &mut buffer));
    assert_eq!(buffer, vec![vec![1, 3, 5, 0], vec![2, 4, 6, 0]]);
    assert!(stream.consume_from_ring_buffer(1, &mut buffer));
    assert_eq!(buffer, vec![vec![7, 3, 5, 0], vec![8, 4, 6, 0]]);
}

#[test]
fn consume_waits_for_a_whole_chunk() {
    let (tx, rx) = sample_queue(1);
    let mut cb = InputStreamCallback::new(1, tx);
    let mut stream = InputStream::new(common("mic", 1), rx, 0);
    let mut buffer = vec![vec![9u32; 480]];
    cb.process(&vec![1u32; 479]);
    assert!(!stream.consume_from_ring_buffer(480, &mut buffer));
    assert_eq!(buffer[0], vec![9u32; 480]);
    cb.process(&[2]);
    assert!(stream.consume_from_ring_buffer(480, &mut buffer));
    assert_eq!(buffer[0][478], 1);
    assert_eq!(buffer[0][479], 2);
}

#[test]
fn errored_input_stream_consumes_nothing() {
    let (tx, rx) = sample_queue(1);
    let mut cb = InputStreamCallback::new(1, tx);
    cb.process(&[1, 2, 3]);
    let mut stream = InputStream::new(common("mic", 1), rx, 0);
    stream.mark_errored();
    assert!(stream.has_errored);
    let mut buffer = vec![vec![0u32; 3]];
    assert!(!stream.consume_from_ring_buffer(3, &mut buffer));
    assert_eq!(buffer, vec![vec![0u32; 3]]);
}

#[test]
fn input_stream_frame_delta() {
    let (_tx, rx) = sample_queue(1);
    let mut stream = InputStream::new(common("mic", 1), rx, 0);
    assert_eq!(stream.take_frame_delta(480), 480);
    assert_eq!(stream.take_frame_delta(960), 480);
    assert_eq!(stream.last_frames, 960);
}

#[test]
fn write_interleaves_into_the_queue() {
    let (tx, rx) = sample_queue(2);
    let mut stream = OutputStream::new(common("speakers", 2), tx, 1);
    assert_eq!(stream.output_channels(), (1, 3));
    let resampled = vec![vec![10u32, 11, 12], vec![20u32, 21, 22]];
    assert!(stream.write_to_ring_buffer(&resampled, 2));
    let mut cb = OutputStreamCallback::new(2, rx);
    let mut out = vec![0u32; 6];
    let report = cb.process(&mut out);
    assert_eq!(out, vec![10, 20, 11, 21, 0, 0]);
    assert!(report.xrun);
    assert_eq!(report.frames, 3);
}

#[test]
fn write_drops_what_does_not_fit() {
    let (tx, rx) = sample_queue(1);
    let mut stream = OutputStream::new(common("speakers", 1), tx, 0);
    let big = vec![(0..2000u32).collect::<Vec<u32>>()];
    assert!(!stream.write_to_ring_buffer(&big, 2000));
    let mut cb = OutputStreamCallback::new(1, rx);
    let mut out = vec![0u32; 1920];
    assert!(!cb.process(&mut out).xrun);
    assert_eq!(out, (0..1920u32).collect::<Vec<u32>>());
}

#[test]
fn output_stream_mark_errored() {
    let (tx, _rx) = sample_queue(2);
    let mut stream = OutputStream::new(common("speakers", 2), tx, 0);
    stream.mark_errored();
    assert!(stream.has_errored);
    assert_eq!(stream.take_frame_delta(7), 7);
}

#[test]
fn chunk_passes_through_unchanged() {
    // What an input callback sends, consumed into channel buffers and written
    // straight to an output queue, reaches the output callback unchanged.
    let (in_tx, in_rx) = sample_queue(2);
    let (out_tx, out_rx) = sample_queue(2);
    let mut capture = InputStreamCallback::new(2, in_tx);
    let mut input = InputStream::new(common("mic", 2), in_rx, 0);
    let mut output = OutputStream::new(common("speakers", 2), out_tx, 0);
    let mut playback = OutputStreamCallback::new(2, out_rx);
    let sent: Vec<u32> = (100..140).collect();
    capture.process(&sent);
    let mut buffer = vec![vec![0u32; 20], vec![0u32; 20]];
    assert!(input.consume_from_ring_buffer(20, &mut buffer));
    assert!(output.write_to_ring_buffer(&buffer, 20));
    let mut out = vec![0u32; 40];
    assert!(!playback.process(&mut out).xrun);
    assert_eq!(out, sent);
}

#[test]
fn observed_chunk_is_taken_exactly_when_covered() {
    let (tx, rx) = sample_queue(2);
    let mut cb = InputStreamCallback::new(2, tx);
    cb.process(&[1, 2, 3, 4, 5, 6]);
    let mut stream = InputStream::new(common("mic", 2), rx, 0);
    let mut buffer = vec![vec![0u32; 3], vec![0u32; 3]];
    // Four samples seen: not enough for a chunk of three frames of two channels.
    assert!(!stream.consume_observed_chunk(4, 3, &mut buffer));
    assert_eq!(buffer, vec![vec![0u32; 3], vec![0u32; 3]]);
    assert!(stream.consume_observed_chunk(6, 3, &mut buffer));
    assert_eq!(buffer, vec![vec![1, 3, 5], vec![2, 4, 6]]);
    stream.mark_errored();
    assert!(!stream.consume_observed_chunk(0, 0, &mut buffer));
}

#[test]
fn chunk_is_the_oldest_queued_and_the_rest_stays() {
    let (tx, rx) = sample_queue(2);
    let mut cb = InputStreamCallback::new(2, tx);
    let bits: Vec<u32> = [1.0f32, 2.0, 3.0, 4.0, 5.0, 6.0].iter().map(|s| s.to_bits()).collect();
    cb.process(&bits);
    let mut stream = InputStream::new(common("mic", 2), rx, 0);
    let mut buffer = vec![vec![0.0f32.to_bits(); 3], vec![0.0f32.to_bits(); 3]];
    assert!(stream.consume_from_ring_buffer(2, &mut buffer));
    let floats: Vec<Vec<f32>> =
        buffer.iter().map(|c| c.iter().map(|b| f32::from_bits(*b)).collect()).collect();
    assert_eq!(floats, vec![vec![1.0, 3.0, 0.0], vec![2.0, 4.0, 0.0]]);
    assert!(stream.consume_from_ring_buffer(1, &mut buffer));
    assert_eq!(f32::from_bits(buffer[0][0]), 5.0);
    assert_eq!(f32::from_bits(buffer[1][0]), 6.0);
    assert!(!stream.consume_from_ring_buffer(1, &mut buffer));
}

#[test]
fn buffer_start_indices() {
    let (tx, rx) = sample_queue(1);
    let input = InputStream::new(common("mic", 1), rx, 4);
    let output = OutputStream::new(common("spk", 1), tx, 7);
    assert_eq!(input.input_buffer_start(), 4);
    assert_eq!(output.output_buffer_start(), 7);
}
