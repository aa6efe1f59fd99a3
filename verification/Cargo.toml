[package]
name = "abysses"
version = "0.1.0"
edition = "2021"
publish = false

[dependencies]
blake3 = "1"
chacha20poly1305 = "0.10"
ed25519-dalek = { version = "2", features = ["rand_core"] }
x25519-dalek = { version = "2", features = ["static_secrets"] }
rand = "0.8"
reed-solomon-erasure = "6"
hex = "0.4"
bincode = "1"
serde = { version = "1", features = ["derive"] }
serde_json = "1"
thiserror = "1"
tokio = { version = "1", features = ["full"] }
hyper = { version = "0.14", features = ["server", "http1", "tcp"] }
tokio-tungstenite = "0.20"
futures = "0.3"
tracing = "0.1"
tracing-subscriber = "0.3"
libp2p = { version = "0.52", features = ["kad", "mdns", "noise", "identify", "tokio", "macros", "quic"] }
