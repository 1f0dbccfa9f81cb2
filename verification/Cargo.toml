[package]
name = "audio_loop"
version = "0.1.0"
edition = "2021"
publish = false

[dependencies]
anyhow = "1"
cpal = "0.15"
ringbuf = "0.4"
rubato = "0.15"
