[package]
name = "minictr"
version = "0.1.0"
edition = "2021"
publish = false

[dependencies]
clap = { version = "4", features = ["derive"] }
nix = { version = "0.30", features = ["fs", "hostname", "mount", "process", "sched", "signal"] }
serde = { version = "1", features = ["derive"] }
serde_json = "1"
