[package]
name = "midi_display"
version = "0.1.0"
edition = "2021"
publish = false

[dependencies]
nom-midi = "=0.5.1"
