[package]
name = "silero_rs"
version = "0.1.0"
edition = "2021"
publish = false

[dependencies]
anyhow = "=1.0.104"
clap = { version = "=4.6.7", features = ["derive"] }
hound = "=3.5.1"
ndarray = "=0.17.2"
ort = { version = "=2.0.0-rc.15", default-features = false, features = ["std", "ndarray", "load-dynamic"] }
rand = "=0.8.8"
rodio = { version = "=0.21.1", default-features = false, features = ["mp3"] }
tracing = "=0.1.44"
tracing-subscriber = "=0.3.23"
