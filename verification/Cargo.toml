[package]
name = "audio_viz"
version = "0.1.0"
edition = "2021"
publish = false

[dependencies]
rustfft = "*"
ratatui = "*"
color-eyre = "*"
pipewire = "*"
