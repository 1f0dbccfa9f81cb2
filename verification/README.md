# audio_loop

A loopback between audio devices: the target input devices are captured,
resampled to 48 kHz, mixed, resampled to each output device's rate and played.

- `src/` is the verified library (Verus):
  - `queue`: the single-producer single-consumer sample queues, on `ringbuf`.
  - `transfer`: moving samples between queues and buffers (pushing, filling
    device buffers, splitting a chunk per channel).
  - `frames`: interleaved and per-channel layouts, with their round-trip laws.
  - `mix`: the loopback mix.
  - `stream`: per-stream state, the processing loop's per-stream steps and the
    work of the device callbacks.
  - `config`: fixed parameters, queue sizes, device selection, buffer layout.
  - `schedule`: the decisions of the processing loop.
- `app/main.rs` opens the devices (`cpal`), runs the resamplers (`rubato`,
  floating point), converts samples, keeps the clock and drives the loop.
- `tests/` exercises the library with the real `ringbuf`.

Samples cross the queues as the `u32` bit patterns of `f32` samples, so the
verified code moves them without computing on floating-point values.
