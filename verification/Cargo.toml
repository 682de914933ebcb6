[package]
name = "dogel"
version = "0.1.0"
edition = "2021"
publish = false

[dependencies]
anyhow = "1"
argon2 = "0.5"
base64 = "0.22"
blake3 = "1"
chacha20poly1305 = "0.10"
crossterm = "0.27"
directories = "5"
ed25519-dalek = "2"
futures = "0.3"
libp2p = { version = "0.54", features = ["autonat", "dcutr", "ed25519", "identify", "json", "macros", "noise", "ping", "relay", "request-response", "tcp", "tokio", "yamux"] }
libp2p-identity = { version = "0.2", features = ["ed25519", "peerid", "rand"] }
rand_core = { version = "0.6", features = ["getrandom"] }
ratatui = "0.26"
rpassword = "7"
rustyline = { version = "14", default-features = false }
serde = { version = "1", features = ["derive"] }
serde_json = "1"
shell-words = "1"
thiserror = "1"
tokio = { version = "1", features = ["macros", "rt-multi-thread", "sync", "time"] }
toml = "0.8"
zeroize = "1"
