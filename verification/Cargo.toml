[package]
name = "org_sync"
version = "0.1.0"
edition = "2021"
publish = false

[dependencies]
async-std = { version = "=1.13.2", features = ["attributes"] }
async-trait = "=0.1.92"
bendy = { version = "=0.3.3", features = ["serde"] }
chrono = { version = "=0.4.45", default-features = false, features = ["now"] }
clap = { version = "=4.6.7", default-features = false, features = ["derive", "error-context", "help", "std", "usage"] }
futures = "=0.3.34"
libp2p = { version = "=0.55.0", features = ["async-std", "ed25519", "gossipsub", "kad", "macros", "mdns", "noise", "ping", "request-response", "tcp", "yamux"] }
notify = { version = "=6.1.1", default-features = false }
serde = { version = "=1.0.229", features = ["derive"] }
serde_json = "=1.0.154"
sha256 = { version = "=1.6.0", default-features = false }
sled = "=0.34.7"
walkdir = "=2.5.0"
