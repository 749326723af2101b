[package]
name = "forge"
version = "0.1.0"
edition = "2021"
publish = false

[dependencies]
sha2 = "0.10"
hex = "0.4"
uuid = { version = "1", features = ["v4"] }
nix = { version = "0.29", features = ["mount", "sched", "process", "signal", "fs", "user"] }
log = "0.4"
env_logger = "0.11"

[dev-dependencies]
serde_json = "1"
