[package]
name = "pyroduct"
version = "0.1.0"
edition = "2021"
publish = false

[dependencies]
chrono = { version = "=0.4.45", default-features = false, features = ["alloc", "std"] }
serde = { version = "=1.0.229", features = ["derive"] }
serde_json = "=1.0.154"
tokio = { version = "=1.54.1", features = ["fs", "io-util", "sync", "rt", "macros"] }
memmap2 = "=0.9.12"
thiserror = "=2.0.21"
tracing = "=0.1.44"
arrow = { version = "*", default-features = false }
