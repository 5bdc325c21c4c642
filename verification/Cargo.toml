[package]
name = "chariot"
version = "0.1.0"
edition = "2021"
publish = false

[dependencies]
clap = { version = "=4.6.7", features = ["derive"] }
serde = { version = "=1.0.229", features = ["derive"] }
serde_json = "=1.0.154"
thiserror = "=1.0.69"
tonic = "=0.12.3"
nix = { version = "=0.29.0", features = ["user", "socket", "process", "mount", "fs", "sched", "signal"] }
