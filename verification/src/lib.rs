//! Verified core of a low-latency audio loopback: sample queues between the
//! device callbacks and the processing loop, frame (de)interleaving, the
//! loopback mix, per-stream frame accounting and the processing schedule.
//!
//! Samples travel through the queues as `u32` words holding the IEEE-754 bit
//! pattern of an `f32` sample; the code here only moves them, never computes
//! with them.

pub mod config;
pub mod frames;
pub mod mix;
pub mod queue;
pub mod schedule;
pub mod stream;
pub mod transfer;
