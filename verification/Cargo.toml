[package]
name = "savitri_masternode"
version = "0.1.0"
edition = "2021"
publish = false

[dependencies]
anyhow = "=1.0.104"
bincode = "=1.3.3"
chrono = "=0.4.45"
ed25519-dalek = { version = "=2.2.0", features = ["rand_core"] }
hex = "=0.4.3"
libp2p = { version = "=0.53.2", features = ["tokio", "tcp", "dns", "noise", "yamux", "gossipsub", "identify", "macros", "kad", "relay", "autonat", "dcutr", "upnp", "request-response", "json", "serde", "quic"] }
lru = "=0.12.5"
metrics = "=0.24.6"
rand = "=0.8.8"
serde = { version = "=1.0.229", features = ["derive"] }
serde_json = "=1.0.154"
serde-big-array = "=0.5.1"
sha2 = "=0.10.9"
tokio = { version = "=1.54.1", features = ["full"] }
tracing = "=0.1.44"
