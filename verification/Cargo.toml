[package]
name = "audio_bitmap"
version = "0.1.0"
edition = "2021"
publish = false

[dependencies]
image = { version = "0.24", default-features = false, features = ["bmp", "png"] }
tinybmp = "*"
clap = { version = "4", features = ["derive"] }
color-eyre = "0.6"
