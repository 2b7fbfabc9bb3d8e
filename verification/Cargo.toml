[package]
name = "tiny_audio_codec"
version = "0.1.0"
edition = "2021"
publish = false

[dependencies]
bitstream-io = "*"
hound = "*"
rustdct = "*"
anyhow = "*"
tracing = "*"
time = { version = "*", features = ["formatting", "parsing", "local-offset"] }
