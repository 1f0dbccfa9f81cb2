use audio_loop::frames::interleave_frames;
use audio_loop::mix::{big_mix, copy_channel, mix_if_consumed};

#[test]
fn interleave_takes_frame_after_frame() {
    let buffers = vec![vec![1u32, 2, 3, 100], vec![4u32, 5, 6, 200]];
    assert_eq!(interleave_frames(&buffers, 3), vec![1, 4, 2, 5, 3, 6]);
    assert_eq!(interleave_frames(&buffers, 0), Vec::<u32>::new());
}

#[test]
fn interleave_single_channel_is_prefix() {
    let buffers = vec![vec![7.5f32, 8.5, 9.5]];
    assert_eq!(interleave_frames(&buffers, 2), vec![7.5, 8.5]);
}

#[test]
fn interleave_of_no_channels_is_empty() {
    let buffers: Vec<Vec<u32>> = Vec::new();
    assert_eq!(interleave_frames(&buffers, 5), Vec::<u32>::new());
}

#[test]
fn big_mix_copies_last_input_to_every_output() {
    let inputs = vec![vec![1.0f32, 2.0, 3.0], vec![4.0f32, 5.0, 6.0]];
    let mut outputs = vec![vec![0.0f32; 3], vec![9.0f32; 3], vec![-1.0f32; 3]];
    big_mix(&inputs, &mut outputs);
    for output in &outputs {
        assert_eq!(output, &inputs[1]);
    }
    assert_eq!(outputs.len(), 3);
}

#[test]
fn big_mix_single_input_loopback() {
    let inputs = vec![vec![0.25f32; 480]];
    let mut outputs = vec![vec![0.0f32; 480], vec![0.0f32; 480]];
    big_mix(&inputs, &mut outputs);
    assert!(outputs.iter().all(|o| o == &inputs[0]));
}

#[test]
fn big_mix_without_inputs_leaves_outputs() {
    let inputs: Vec<Vec<f32>> = Vec::new();
    let mut outputs = vec![vec![3.0f32, 4.0], vec![5.0f32, 6.0]];
    big_mix(&inputs, &mut outputs);
    assert_eq!(outputs, vec![vec![3.0f32, 4.0], vec![5.0f32, 6.0]]);
}

#[test]
fn big_mix_is_idempotent() {
    let inputs = vec![vec![1u32, 2], vec![3u32, 4]];
    let mut outputs = vec![vec![0u32, 0]];
    big_mix(&inputs, &mut outputs);
    let once = outputs.clone();
    big_mix(&inputs, &mut outputs);
    assert_eq!(outputs, once);
}

#[test]
fn copy_channel_overwrites() {
    let mut dst = vec![0u32; 3];
    copy_channel(&mut dst, &vec![1, 2, 3]);
    assert_eq!(dst, vec![1, 2, 3]);
}

#[test]
fn mix_runs_only_when_an_input_consumed() {
    let inputs = vec![vec![1.0f32, 2.0]];
    let mut outputs = vec![vec![0.0f32, 0.0], vec![5.0f32, 5.0]];
    assert!(!mix_if_consumed(&[false, false], &inputs, &mut outputs));
    assert_eq!(outputs, vec![vec![0.0f32, 0.0], vec![5.0f32, 5.0]]);
    assert!(mix_if_consumed(&[false, true], &inputs, &mut outputs));
    assert_eq!(outputs, vec![vec![1.0f32, 2.0], vec![1.0f32, 2.0]]);
}

#[test]
fn mix_result_does_not_depend_on_old_outputs() {
    let inputs = vec![vec![3u32, 4]];
    let mut a = vec![vec![0u32, 0]];
    let mut b = vec![vec![9u32, 9]];
    big_mix(&inputs, &mut a);
    big_mix(&inputs, &mut b);
    assert_eq!(a, b);
}
