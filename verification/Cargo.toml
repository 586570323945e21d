[package]
name = "rank_wav_rs"
version = "0.1.0"
edition = "2021"
publish = false

[dependencies]
anyhow = "=1.0.104"
hound = "=3.5.1"
rustfft = "=6.4.1"
serde = { version = "=1.0.229", features = ["derive"] }
serde_json = "=1.0.154"
tabled = "=0.22.0"
toml = "=0.9.8"
walkdir = "=2.5.0"
