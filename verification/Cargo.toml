[package]
name = "kerosene_node"
version = "0.1.0"
edition = "2021"
publish = false

[dependencies]
sha2 = "=0.10.9"
hex = "=0.4.3"
ed25519-dalek = { version = "=2.2.0", features = ["rand_core"] }
url = "=2.5.8"
rand = "=0.8.8"
serde = { version = "=1.0.229", features = ["derive"] }
serde_json = "=1.0.154"
sled = "=0.34.7"
tokio = { version = "=1.54.1", features = ["net", "io-util", "time", "rt"] }
tower = "=0.5.3"
tower-abci = "=0.19.1"
tendermint = "=0.40.4"
reqwest = { version = "=0.12.28", default-features = false, features = ["json", "socks", "rustls-tls"] }
async-trait = "=0.1.92"
parking_lot = "=0.12.5"
bytes = "=1.12.1"
tracing = "=0.1.44"
thiserror = "=1.0.69"
zeroize = "=1.9.1"
