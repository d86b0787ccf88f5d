[package]
name = "cfc_daemon"
version = "0.1.0"
edition = "2021"
publish = false

[dependencies]
anyhow = "=1.0.104"
chrono = "=0.4.45"
clap = { version = "=4.6.7", features = ["derive"] }
dns-lookup = "3"
ipnet = "=2.12.2"
libc = "=0.2.191"
nfq = "=0.2.5"
nix = { version = "=0.29.0", features = ["user", "fs"] }
parking_lot = "=0.12.5"
serde = { version = "=1.0.229", features = ["derive"] }
tokio = { version = "=1.54.1", features = ["full"] }
toml = "=0.8.23"
tracing = "=0.1.44"
tracing-subscriber = { version = "=0.3.23", features = ["env-filter"] }
uuid = { version = "=1.29.0", features = ["v4"] }
aya = "0.14"
