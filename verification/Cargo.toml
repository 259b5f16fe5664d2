[package]
name = "rhythmix"
version = "0.1.0"
edition = "2021"
publish = false

[dependencies]
crossbeam = "=0.8.5"
env_logger = "=0.10.2"
fastrand = "=2.5.0"
hyper = { version = "=0.14.32", features = ["full"] }
log = "=0.4.35"
rand = "=0.8.8"
rodio = { version = "=0.21.1", default-features = false, features = ["wav", "symphonia-mp3"] }
rustfft = "=6.4.1"
serde = { version = "=1.0.229", features = ["derive"] }
serde_json = "=1.0.154"
thiserror = "=1.0.69"
tokio = { version = "=1.54.1", features = ["full"] }
