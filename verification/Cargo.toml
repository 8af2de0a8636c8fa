[package]
name = "libp2p-grpc-rs"
version = "0.1.0"
edition = "2021"
publish = false

[dependencies]
futures = "0.3"
libp2p = "0.52"
pin-project = "1"
smallvec = "1"
thiserror = "1"
tokio = { version = "1", features = ["macros", "rt", "sync"] }
tonic = "0.9"
tower = "0.4"
tracing = "0.1"
