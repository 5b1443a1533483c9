[package]
name = "argus_mesh"
version = "0.1.0"
edition = "2021"
publish = false

[dependencies]
uuid = { version = "=1.29.0", features = ["v4", "serde"] }
lru = "=0.12.5"
sha2 = "=0.10.9"
ed25519-dalek = "=2.2.0"
chacha20poly1305 = "=0.10.1"
rand = "=0.8.8"
zeroize = "=1.9.1"
serde = { version = "=1.0.229", features = ["derive"] }
serde_json = "=1.0.154"
bincode = "=1.3.3"
sled = "=0.34.7"
tokio = { version = "=1.54.1", features = ["rt-multi-thread", "sync", "time", "macros"] }
once_cell = "=1.21.4"
log = "=0.4.35"
thiserror = "=1.0.69"
async-trait = "=0.1.92"
time = { version = "=0.3.55", features = ["serde"] }
futures = "=0.3.34"
btleplug = "=0.11.8"
