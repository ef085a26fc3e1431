[package]
name = "ioutgt"
version = "0.1.0"
edition = "2021"
publish = false

[dependencies]
clap = { version = "4", features = ["derive"] }
core_affinity = "0.8"
libc = "0.2"
os_socketaddr = "0.2"
rdma-mummy-sys = "*"
serde = { version = "1", features = ["derive"] }
serde_json = "1"
sideway = "0.4"
tokio = { version = "1", features = ["rt", "net", "io-util", "time", "sync", "macros"] }
tracing = "0.1"
tracing-subscriber = { version = "0.3", features = ["env-filter"] }
