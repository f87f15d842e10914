[package]
name = "truce-analyzer"
version = "0.1.0"
edition = "2021"
publish = false

[dependencies]
egui = "=0.34.3"
libc = "=0.2.191"
rustfft = "=6.4.1"
serde = { version = "=1.0.229", features = ["derive"] }
serde_json = "=1.0.154"
truce = "=0.61.0"
truce-core = "=0.61.0"
truce-egui = "=0.61.0"
truce-gui = "=0.61.0"
