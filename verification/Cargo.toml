[package]
name = "nemotron_mlx"
version = "0.1.0"
edition = "2021"
publish = false

[dependencies]
base64 = "0.22"
clap = { version = "4", features = ["derive"] }
ferrous-opencc = "*"
half = "2"
hound = "3"
mlx-rs = "*"
mlx-sys = "*"
rustfft = "6"
serde = { version = "1", features = ["derive"] }
serde_json = "1"
sherpa-onnx = "*"
tempfile = "3"
thiserror = "2"
