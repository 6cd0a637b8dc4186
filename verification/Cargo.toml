[package]
name = "gavel"
version = "0.1.0"
edition = "2021"
publish = false

[dependencies]
anyhow = "1"
bincode = "2"
chrono = "0.4"
colored = "2"
log = "0.4"
nix = { version = "0.29", features = ["signal"] }
nvml-wrapper = "0.10"
serde = { version = "1", features = ["derive"] }
serde_json = "1"
shlex = "1"
structopt = "0.3"
tokio = { version = "1", features = ["full"] }
