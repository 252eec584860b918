[package]
name = "sensor-core"
version = "0.1.0"
edition = "2021"
publish = false

[dependencies]
anyhow = "1"
evdev = "0.12"
hound = "3.5"
cpal = "0.15"
whisper-rs = "0.15"
gtk4 = "0.9"
