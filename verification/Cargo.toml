[package]
name = "peer_rpc"
version = "0.1.0"
edition = "2021"
publish = false

[dependencies]
async-trait = "0.1"
futures = "0.3"
libp2p = { version = "*", features = ["ed25519", "noise", "request-response", "tcp", "tokio", "yamux"] }
thiserror = "1"
tokio = { version = "1", features = ["macros", "rt-multi-thread"] }
tower = "0.5"
