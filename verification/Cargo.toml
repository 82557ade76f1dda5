[package]
name = "xdp-ip-counter"
version = "0.1.0"
edition = "2021"
publish = false

[dependencies]
anyhow = "=1.0.104"
aya = "=0.14.0"
aya-ebpf = "=0.1.1"
aya-log = "=0.3.0"
aya-log-ebpf = "=0.1.0"
clap = { version = "=4.6.7", features = ["derive"] }
env_logger = "=0.11.11"
log = "=0.4.34"
network-types = { version = "=0.2.0", default-features = false }
serde = { version = "=1.0.229", features = ["derive"] }
tokio = { version = "=1.54.1", features = ["macros", "rt-multi-thread", "signal", "sync", "time"] }
warp = "=0.3.7"
