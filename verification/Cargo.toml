[package]
name = "boat"
version = "0.1.0"
edition = "2021"
publish = false

[dependencies]
xmas-elf = "*"
serde = { version = "*", features = ["derive"] }
serde_json = "*"
anyhow = "*"
clap = { version = "*", features = ["derive"] }
glob = "*"
which = "*"
tracing = "*"
tracing-subscriber = { version = "*", features = ["env-filter"] }
